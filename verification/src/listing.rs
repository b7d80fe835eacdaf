//! What a walk of the root directory found: the files, and the folders with
//! what they hold in turn.

use crate::file_types::{FileView, TextFileView};
use crate::path::child_key;
use vstd::prelude::*;

verus! {

/// One item of a directory.
#[derive(Debug, PartialEq, Eq)]
pub enum Listed {
    /// A regular file, by its name in the directory and its path on disk.
    File { name: String, path: String },
    /// A folder, by its name, with its items. `items` is `None` where the
    /// folder could not be read.
    Folder { name: String, items: Option<Vec<Listed>> },
}

/// The entry that a load makes for a file found at `path`: a text whose
/// content has not been read, and that is not dirty.
pub open spec fn fresh_entry(path: Seq<char>) -> FileView {
    FileView::Text(TextFileView { path, content: None, dirty: false })
}

/// The mapping `entries` after the item `item`, found in the folder whose
/// key is `prefix`, has been taken in.
pub open spec fn absorbed_item(
    entries: Map<Seq<char>, FileView>,
    item: Listed,
    prefix: Seq<char>,
) -> Map<Seq<char>, FileView>
    decreases item,
{
    match item {
        Listed::File { name, path } => entries.insert(child_key(prefix, name@), fresh_entry(path@)),
        Listed::Folder { name, items: Some(inner) } => absorbed(
            entries,
            inner@,
            inner@.len(),
            child_key(prefix, name@),
        ),
        Listed::Folder { name, items: None } => entries,
    }
}

/// The mapping `entries` after the first `n` of `items`, found in the folder
/// whose key is `prefix`, have been taken in, one after the other.
pub open spec fn absorbed(
    entries: Map<Seq<char>, FileView>,
    items: Seq<Listed>,
    n: nat,
    prefix: Seq<char>,
) -> Map<Seq<char>, FileView>
    decreases items, n,
{
    if n == 0 || n > items.len() {
        entries
    } else {
        absorbed_item(absorbed(entries, items, (n - 1) as nat, prefix), items[n - 1], prefix)
    }
}

/// The relative paths of the regular files in and under `item`, segments
/// joined by slashes.
pub open spec fn item_keys(item: Listed, prefix: Seq<char>) -> Set<Seq<char>>
    decreases item,
{
    match item {
        Listed::File { name, path } => set![child_key(prefix, name@)],
        Listed::Folder { name, items: Some(inner) } => listed_keys(
            inner@,
            inner@.len(),
            child_key(prefix, name@),
        ),
        Listed::Folder { name, items: None } => Set::empty(),
    }
}

/// The relative paths of the regular files in and under the first `n` of
/// `items`.
pub open spec fn listed_keys(items: Seq<Listed>, n: nat, prefix: Seq<char>) -> Set<Seq<char>>
    decreases items, n,
{
    if n == 0 || n > items.len() {
        Set::empty()
    } else {
        listed_keys(items, (n - 1) as nat, prefix).union(item_keys(items[n - 1], prefix))
    }
}

/// Taking an item in adds the keys of its files to the mapping, and no
/// other key.
pub proof fn lemma_absorbed_item_keys(
    entries: Map<Seq<char>, FileView>,
    item: Listed,
    prefix: Seq<char>,
)
    ensures
        absorbed_item(entries, item, prefix).dom() == entries.dom().union(item_keys(item, prefix)),
    decreases item,
{
    match item {
        Listed::File { name, path } => {
            assert(absorbed_item(entries, item, prefix).dom() =~= entries.dom().union(
                item_keys(item, prefix),
            ));
        },
        Listed::Folder { name, items: Some(inner) } => {
            lemma_absorbed_keys(entries, inner@, inner@.len(), child_key(prefix, name@));
        },
        Listed::Folder { name, items: None } => {
            assert(entries.dom() =~= entries.dom().union(item_keys(item, prefix)));
        },
    }
}

/// Taking items in adds the keys of their files to the mapping, and no other
/// key.
pub proof fn lemma_absorbed_keys(
    entries: Map<Seq<char>, FileView>,
    items: Seq<Listed>,
    n: nat,
    prefix: Seq<char>,
)
    ensures
        absorbed(entries, items, n, prefix).dom() == entries.dom().union(
            listed_keys(items, n, prefix),
        ),
    decreases items, n,
{
    if n == 0 || n > items.len() {
        assert(entries.dom() =~= entries.dom().union(listed_keys(items, n, prefix)));
    } else {
        let before = absorbed(entries, items, (n - 1) as nat, prefix);
        lemma_absorbed_keys(entries, items, (n - 1) as nat, prefix);
        lemma_absorbed_item_keys(before, items[n - 1], prefix);
        assert(absorbed(entries, items, n, prefix).dom() =~= entries.dom().union(
            listed_keys(items, n, prefix),
        ));
    }
}

} // verus!
