//! Facts that hold across the operations of the store and of the tree
//! view.

use crate::cache::{fetched, toggled, DatabaseView};
use crate::file_types::FileView;
use crate::listing::{absorbed, lemma_absorbed_keys, listed_keys, Listed};
use crate::matching::{is_first_occurrence, lemma_first_occurrence, literal_match_start};
use crate::numbering::{is_first_free, lemma_first_free_unique, numbered};
use crate::offsets::{
    byte_len, byte_offset, lemma_byte_len_subrange, lemma_byte_offset_increasing,
    lemma_char_index_of_offset,
};
use crate::search::content_hit;
use crate::snippet::snippet;
use crate::order::lemma_increasing_determined;
use crate::path::{lemma_member_hides, lies_below};
use crate::text::is_blank;
use crate::tree::{
    file_tree, has_path, lemma_collapsed_hides_below, lemma_tree_shows_key, shown_from, tree_upto,
};
use vstd::prelude::*;

verus! {

/// The order in which a store is walked depends on its keys alone: two
/// valid stores with the same keys are walked in the same order.
pub proof fn lemma_order_determined(a: DatabaseView, b: DatabaseView)
    requires
        a.valid(),
        b.valid(),
        a.entries.dom() == b.entries.dom(),
    ensures
        a.order == b.order,
{
    assert forall|k: Seq<char>| a.order.contains(k) <==> b.order.contains(k) by {
        assert(a.entries.dom().contains(k) == b.entries.dom().contains(k));
    }
    lemma_increasing_determined(a.order, b.order);
}

/// After a load into an empty store, the keys are the relative paths of
/// the regular files that the walk of the directory found: each of them
/// once, and nothing else.
pub proof fn lemma_load_then_keys(before: DatabaseView, after: DatabaseView, items: Seq<Listed>)
    requires
        after.valid(),
        before.entries == Map::<Seq<char>, FileView>::empty(),
        after.entries == absorbed(before.entries, items, items.len(), Seq::empty()),
    ensures
        after.order.no_duplicates(),
        after.order.to_set() == listed_keys(items, items.len(), Seq::empty()),
{
    lemma_absorbed_keys(before.entries, items, items.len(), Seq::empty());
    crate::order::lemma_increasing_distinct(after.order);
    assert(after.order.to_set() =~= listed_keys(items, items.len(), Seq::empty()));
}

/// Two answers to the question for a free key, asked of the same keys with
/// the same base, are the same key.
pub proof fn lemma_unique_key_stable(
    keys: Set<Seq<char>>,
    base: Seq<char>,
    first: Seq<char>,
    second: Seq<char>,
)
    requires
        exists|n: nat| is_first_free(keys, base, n) && first == numbered(base, n),
        exists|n: nat| is_first_free(keys, base, n) && second == numbered(base, n),
    ensures
        first == second,
        !keys.contains(first),
{
    let m = choose|n: nat| is_first_free(keys, base, n) && first == numbered(base, n);
    let n = choose|n: nat| is_first_free(keys, base, n) && second == numbered(base, n);
    lemma_first_free_unique(keys, base, m, n);
}

/// Toggling a folder twice gives the collapsed folders that there were.
pub proof fn lemma_toggle_twice(collapsed: Set<Seq<char>>, folder: Seq<char>)
    ensures
        toggled(toggled(collapsed, folder), folder) == collapsed,
{
    assert(toggled(toggled(collapsed, folder), folder) =~= collapsed);
}

/// The tree depends on the keys of the store and on its collapsed folders
/// alone: it is the same for two valid stores that agree on both, whatever
/// their entries hold.
pub proof fn lemma_tree_depends_on_keys(a: DatabaseView, b: DatabaseView)
    requires
        a.valid(),
        b.valid(),
        a.entries.dom() == b.entries.dom(),
        a.collapsed == b.collapsed,
    ensures
        file_tree(a) == file_tree(b),
{
    lemma_order_determined(a, b);
    lemma_tree_upto_same(a, b, a.order.len());
}

proof fn lemma_tree_upto_same(a: DatabaseView, b: DatabaseView, n: nat)
    requires
        a.order == b.order,
        a.collapsed == b.collapsed,
    ensures
        tree_upto(a, n) == tree_upto(b, n),
    decreases n,
{
    if n > 0 {
        lemma_tree_upto_same(a, b, (n - 1) as nat);
    }
}

/// Once a folder that was open has been toggled, no node of the tree lies
/// below it.
pub proof fn lemma_collapse_hides(store: DatabaseView, folder: Seq<char>)
    requires
        !store.collapsed.contains(folder),
    ensures
        ({
            let after = DatabaseView { collapsed: toggled(store.collapsed, folder), ..store };
            forall|i: int|
                0 <= i < file_tree(after).len() ==> !lies_below(
                    (#[trigger] file_tree(after)[i]).full_path,
                    folder,
                )
        }),
{
    let after = DatabaseView { collapsed: toggled(store.collapsed, folder), ..store };
    lemma_member_hides(after.collapsed, folder);
    lemma_collapsed_hides_below(after, folder);
}

/// Collapsing a folder and opening it again gives the tree that there was.
pub proof fn lemma_toggle_twice_restores_tree(store: DatabaseView, folder: Seq<char>)
    requires
        store.valid(),
    ensures
        file_tree(
            DatabaseView {
                collapsed: toggled(toggled(store.collapsed, folder), folder),
                ..store
            },
        ) == file_tree(store),
{
    lemma_toggle_twice(store.collapsed, folder);
}

/// A plain search that finds `terms` first at the character `k` of `text`
/// reports the byte offset of that character; the result made for it shows
/// the excerpt round the character `k`, and its `start` and `end` are the
/// byte offsets of the two ends of the match.
pub proof fn lemma_plain_hit(key: Seq<char>, text: Seq<char>, terms: Seq<char>, k: int)
    requires
        is_first_occurrence(terms, text, k),
        byte_len(text) <= usize::MAX,
    ensures
        literal_match_start(terms, text) == Some(byte_offset(text, k)),
        content_hit(key, text, terms, byte_offset(text, k)).line_matched == snippet(
            text,
            k,
            terms.len() as int,
        ),
        content_hit(key, text, terms, byte_offset(text, k)).end == byte_offset(
            text,
            k + terms.len(),
        ),
{
    lemma_first_occurrence(terms, text, k);
    lemma_char_index_of_offset(text, k);
    lemma_byte_len_subrange(text, k, k + terms.len());
    lemma_byte_offset_increasing(text, k + terms.len(), text.len() as int);
}

/// A content is read from disk once at most: after a request that was
/// answered with a text, the same request gives the same text and changes
/// nothing, whatever a new read of the backing file gives.
pub proof fn lemma_fetched_once(
    entries: Map<Seq<char>, FileView>,
    key: Seq<char>,
    disk: Option<Seq<char>>,
    later: Option<Seq<char>>,
)
    requires
        fetched(entries, key, disk).1 is Ok,
    ensures
        fetched(fetched(entries, key, disk).0, key, later) == fetched(entries, key, disk),
{
    let first = fetched(entries, key, disk);
    assert(fetched(first.0, key, later).0 =~= first.0);
}

/// With no folder collapsed, every key of the store that is not blank has
/// its node in the tree.
pub proof fn lemma_open_tree_shows_all(store: DatabaseView, j: int)
    requires
        store.collapsed == Set::<Seq<char>>::empty(),
        0 <= j < store.order.len(),
        !is_blank(store.order[j]),
    ensures
        has_path(file_tree(store), store.order[j]),
{
    assert(shown_from(store.collapsed, store.order[j], 0));
    lemma_tree_shows_key(store, j, store.order.len());
}

} // verus!
