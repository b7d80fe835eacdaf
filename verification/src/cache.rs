//! The document store: entries by key, walked in the lexicographic order
//! of the keys, the root directory, and the set of collapsed folders.

use crate::file_types::{opt_view, FileType, FileView, TextFile, TextFileView};
use crate::listing::{absorbed, lemma_absorbed_keys, listed_keys, Listed};
use crate::numbering::{
    is_first_free, lemma_candidates_fit, lemma_first_free_unique, numbered, numbered_key,
    unique_key,
};
use crate::order::{increasing, lemma_increasing_distinct};
use crate::path::{disk_path, hides, is_boundary, join_disk_path};
use crate::table::{
    holds, lemma_mapping_at, lemma_mapping_update, text_set, texts, views, with, without, Table,
};
use crate::text::{text_of, to_chars};
use vstd::prelude::*;

verus! {

/// The store. Its keys are unique; they are held in increasing order, so
/// that walking the store is the same on every run.
pub struct Database {
    table: Table,
    file_path: String,
    collapsed: Vec<String>,
}

/// What a [`Database`] holds, as plain values.
pub ghost struct DatabaseView {
    /// The entry of each key.
    pub entries: Map<Seq<char>, FileView>,
    /// The keys, in the order in which the store is walked.
    pub order: Seq<Seq<char>>,
    /// The root directory.
    pub root: Seq<char>,
    /// The folder paths that are collapsed.
    pub collapsed: Set<Seq<char>>,
}

/// The collapsed folders once `folder` has been toggled: without it if it
/// was among them, with it if it was not.
pub open spec fn toggled(collapsed: Set<Seq<char>>, folder: Seq<char>) -> Set<Seq<char>> {
    if collapsed.contains(folder) {
        collapsed.remove(folder)
    } else {
        collapsed.insert(folder)
    }
}

/// The entries once the entry under `from` has been moved to `to`, in
/// place of what was there. Without an entry under `from` they stay as they
/// are.
pub open spec fn moved(
    entries: Map<Seq<char>, FileView>,
    from: Seq<char>,
    to: Seq<char>,
) -> Map<Seq<char>, FileView> {
    if entries.dom().contains(from) {
        entries.remove(from).insert(to, entries[from])
    } else {
        entries
    }
}

/// The entries once the dirty flag of the entry under `key` has been set to
/// `dirty`. Without an entry under `key` they stay as they are.
pub open spec fn flagged(
    entries: Map<Seq<char>, FileView>,
    key: Seq<char>,
    dirty: bool,
) -> Map<Seq<char>, FileView> {
    if entries.dom().contains(key) {
        entries.insert(key, entries[key].with_dirty(dirty))
    } else {
        entries
    }
}

impl DatabaseView {
    /// The keys of `entries` are those of `order`, which is increasing.
    pub open spec fn valid(self) -> bool {
        &&& increasing(self.order)
        &&& forall|k: Seq<char>| self.entries.dom().contains(k) <==> self.order.contains(k)
    }
}

/// Why a load failed.
#[derive(Clone, Copy, Debug, PartialEq, Eq, Structural)]
pub enum LoadError {
    /// The root directory itself could not be read.
    RootUnreadable,
}

/// Why a content could not be handed out.
#[derive(Clone, Copy, Debug, PartialEq, Eq, Structural)]
pub enum ContentError {
    /// The store holds nothing under the key.
    NotFound,
    /// The content is not in memory and the backing file could not be read.
    Unreadable,
}

/// A file that the caller is to create or empty, and then fill with
/// `content` where there is one.
#[derive(Debug, PartialEq, Eq)]
pub struct FileWrite {
    pub key: String,
    pub path: String,
    pub content: Option<String>,
}

/// What a [`FileWrite`] holds, as plain values.
pub ghost struct FileWriteView {
    pub key: Seq<char>,
    pub path: Seq<char>,
    pub content: Option<Seq<char>>,
}

impl View for FileWrite {
    type V = FileWriteView;

    open spec fn view(&self) -> FileWriteView {
        FileWriteView { key: self.key@, path: self.path@, content: opt_view(self.content) }
    }
}

/// The views of a list of writes.
pub open spec fn write_views(list: Seq<FileWrite>) -> Seq<FileWriteView> {
    Seq::new(list.len(), |i: int| list[i]@)
}

impl DatabaseView {
    /// The entry under `key` is a text whose dirty flag is set.
    pub open spec fn is_dirty_text(self, key: Seq<char>) -> bool {
        &&& self.entries.dom().contains(key)
        &&& self.entries[key] matches FileView::Text(file)
        &&& file.dirty
    }

    /// The write that saves the text entry under `key`.
    pub open spec fn write_of(self, key: Seq<char>) -> FileWriteView {
        FileWriteView {
            key,
            path: disk_path(self.root, key),
            content: match self.entries[key] {
                FileView::Text(file) => file.content,
                FileView::Image(_) => None,
            },
        }
    }

    /// The writes that save every dirty text among the first `n` keys, in
    /// the order of the keys.
    pub open spec fn writes_upto(self, n: nat) -> Seq<FileWriteView>
        decreases n,
    {
        if n == 0 || n > self.order.len() {
            Seq::empty()
        } else if self.is_dirty_text(self.order[n - 1]) {
            self.writes_upto((n - 1) as nat).push(self.write_of(self.order[n - 1]))
        } else {
            self.writes_upto((n - 1) as nat)
        }
    }

    /// The writes that save every dirty text of the store.
    pub open spec fn pending_writes(self) -> Seq<FileWriteView> {
        self.writes_upto(self.order.len())
    }

    /// The backing file that has to be read before the content under `key`
    /// can be handed out: that of a text whose content is not in memory.
    pub open spec fn unread_path(self, key: Seq<char>) -> Option<Seq<char>> {
        if !self.entries.dom().contains(key) {
            None
        } else {
            match self.entries[key] {
                FileView::Text(file) => if file.content is None {
                    Some(file.path)
                } else {
                    None
                },
                FileView::Image(_) => None,
            }
        }
    }

}

/// The entries after a request for the content under `key`, and its answer.
/// `disk` is what reading the backing file gave, `None` if it was not read
/// or the read failed. An image has no text: its content is empty.
pub open spec fn fetched(
    entries: Map<Seq<char>, FileView>,
    key: Seq<char>,
    disk: Option<Seq<char>>,
) -> (Map<Seq<char>, FileView>, Result<Seq<char>, ContentError>) {
    if !entries.dom().contains(key) {
        (entries, Err(ContentError::NotFound))
    } else {
        match entries[key] {
            FileView::Image(_) => (entries, Ok(Seq::empty())),
            FileView::Text(file) => match file.content {
                Some(text) => (entries, Ok(text)),
                None => match disk {
                    Some(text) => (
                        entries.insert(
                            key,
                            FileView::Text(TextFileView { content: Some(text), ..file }),
                        ),
                        Ok(text),
                    ),
                    None => (entries, Err(ContentError::Unreadable)),
                },
            },
        }
    }
}

/// A text handed out, or the reason why none was, over characters.
pub open spec fn answer_view(r: Result<String, ContentError>) -> Result<Seq<char>, ContentError> {
    match r {
        Ok(text) => Ok(text@),
        Err(e) => Err(e),
    }
}

/// Every pending write saves a dirty text of the store, and every dirty
/// text of the store has its write.
pub proof fn lemma_writes_are_the_dirty(store: DatabaseView, n: nat)
    requires
        store.valid(),
        n <= store.order.len(),
    ensures
        forall|i: int|
            0 <= i < store.writes_upto(n).len() ==> {
                let w = #[trigger] store.writes_upto(n)[i];
                store.is_dirty_text(w.key) && w == store.write_of(w.key)
            },
        forall|j: int|
            0 <= j < n && store.is_dirty_text(#[trigger] store.order[j]) ==> exists|i: int|
                0 <= i < store.writes_upto(n).len() && (#[trigger] store.writes_upto(n)[i]).key
                    == store.order[j],
        store.writes_upto(n).len() <= n,
    decreases n,
{
    if n > 0 {
        lemma_writes_are_the_dirty(store, (n - 1) as nat);
        let before = store.writes_upto((n - 1) as nat);
        let after = store.writes_upto(n);
        assert forall|j: int| 0 <= j < n && store.is_dirty_text(#[trigger] store.order[j]) implies exists|
            i: int,
        |
            0 <= i < after.len() && (#[trigger] after[i]).key == store.order[j] by {
            if j < n - 1 {
                let i = choose|i: int|
                    0 <= i < before.len() && (#[trigger] before[i]).key == store.order[j];
                assert(after[i].key == store.order[j]);
            } else {
                assert(after[after.len() - 1].key == store.order[j]);
            }
        }
    }
}

impl View for Database {
    type V = DatabaseView;

    closed spec fn view(&self) -> DatabaseView {
        DatabaseView {
            entries: self.table.entries(),
            order: texts(self.table.keys@),
            root: self.file_path@,
            collapsed: text_set(self.collapsed@),
        }
    }
}

impl Database {
    /// The keys are in increasing order, each with its entry.
    #[verifier::type_invariant]
    pub closed spec fn wf(&self) -> bool {
        self.table.wf()
    }

    /// A well-formed store has a valid view.
    pub proof fn lemma_valid(&self)
        requires
            self.wf(),
        ensures
            self@.valid(),
    {
    }

    /// An empty store on the directory `file_path`.
    pub fn new(file_path: &str) -> (db: Database)
        ensures
            db@.entries == Map::<Seq<char>, FileView>::empty(),
            db@.order == Seq::<Seq<char>>::empty(),
            db@.root == file_path@,
            db@.collapsed == Set::<Seq<char>>::empty(),
    {
        let db = Database {
            table: Table { keys: Vec::new(), files: Vec::new() },
            file_path: String::from_str(file_path),
            collapsed: Vec::new(),
        };
        assert(db@.entries =~= Map::<Seq<char>, FileView>::empty());
        assert(db@.order =~= Seq::<Seq<char>>::empty());
        assert(db@.collapsed =~= Set::<Seq<char>>::empty());
        db
    }

    /// Takes the table out, leaving the store empty, so that it can be
    /// changed one step at a time.
    fn take_table(&mut self) -> (table: Table)
        ensures
            table == old(self).table,
            table.wf(),
            final(self).table.keys@.len() == 0,
            final(self).table.files@.len() == 0,
            final(self).file_path == old(self).file_path,
            final(self).collapsed == old(self).collapsed,
    {
        proof {
            use_type_invariant(&*self);
        }
        let mut table = Table { keys: Vec::new(), files: Vec::new() };
        core::mem::swap(&mut self.table, &mut table);
        table
    }

    /// Puts a well-formed table back.
    fn restore(&mut self, table: Table)
        requires
            table.wf(),
        ensures
            final(self).table == table,
            final(self).file_path == old(self).file_path,
            final(self).collapsed == old(self).collapsed,
    {
        let mut table = table;
        core::mem::swap(&mut self.table, &mut table);
    }

    /// Whether the store holds an entry under `file`.
    pub fn contains(&self, file: &str) -> (found: bool)
        ensures
            found == self@.entries.dom().contains(file@),
    {
        proof {
            use_type_invariant(self);
        }
        let key = to_chars(file);
        let (_, found) = self.table.locate(&key);
        found
    }

    /// The entry under `file_name`, for the caller to read or change.
    pub fn get_file(&mut self, file_name: &str) -> (r: Option<&mut FileType>)
        ensures
            match r {
                Some(file) => {
                    &&& old(self)@.entries.dom().contains(file_name@)
                    &&& file@ == old(self)@.entries[file_name@]
                    &&& final(self)@.entries == old(self)@.entries.insert(file_name@, final(file)@)
                },
                None => {
                    &&& !old(self)@.entries.dom().contains(file_name@)
                    &&& final(self)@.entries == old(self)@.entries
                },
            },
            final(self)@.order == old(self)@.order,
            final(self)@.root == old(self)@.root,
            final(self)@.collapsed == old(self)@.collapsed,
    {
        proof {
            use_type_invariant(&*self);
        }
        let chars = to_chars(file_name);
        let (p, found) = self.table.locate(&chars);
        let ghost keys = texts(self.table.keys@);
        let ghost values = views(self.table.files@);
        if found {
            let file = &mut self.table.files[p];
            proof {
                lemma_mapping_at(keys, values, p as int);
                lemma_mapping_update(keys, values, p as int, final(file)@);
                assert(views(old(self).table.files@.update(p as int, *final(file))) =~= values.update(
                    p as int,
                    final(file)@,
                ));
            }
            Some(file)
        } else {
            None
        }
    }

    /// Puts a text entry with the content `value` under `key`, in place of
    /// what was there, and marks it dirty. Its path is the key.
    pub fn insert(&mut self, key: String, value: String)
        ensures
            final(self)@.entries == old(self)@.entries.insert(
                key@,
                FileView::Text(TextFileView { path: key@, content: Some(value@), dirty: true }),
            ),
            final(self)@.root == old(self)@.root,
            final(self)@.collapsed == old(self)@.collapsed,
            final(self)@.valid(),
    {
        let file = FileType::Text(TextFile { path: key.clone(), content: Some(value), dirty: true });
        let mut table = self.take_table();
        table.put(key, file);
        self.restore(table);
    }

    /// The keys, in the order in which the store is walked: increasing, each
    /// key once.
    pub fn keys(&self) -> (keys: Vec<&String>)
        ensures
            keys@.len() == self@.order.len(),
            forall|i: int| 0 <= i < keys@.len() ==> (#[trigger] keys@[i])@ == self@.order[i],
            self@.valid(),
    {
        proof {
            use_type_invariant(self);
        }
        let mut keys: Vec<&String> = Vec::new();
        let mut i: usize = 0;
        while i < self.table.keys.len()
            invariant
                i <= self.table.keys.len(),
                keys@.len() == i,
                forall|j: int| 0 <= j < i ==> (#[trigger] keys@[j])@ == texts(self.table.keys@)[j],
            decreases self.table.keys.len() - i,
        {
            keys.push(&self.table.keys[i]);
            i += 1;
        }
        keys
    }

    /// Moves the store to the directory `p` and drops every entry. Nothing
    /// is written, and nothing is read from the new directory.
    pub fn change_dirs(&mut self, p: String)
        ensures
            final(self)@.root == p@,
            final(self)@.entries == Map::<Seq<char>, FileView>::empty(),
            final(self)@.order == Seq::<Seq<char>>::empty(),
            final(self)@.collapsed == old(self)@.collapsed,
    {
        let _ = self.take_table();
        self.file_path = p;
        assert(self@.entries =~= Map::<Seq<char>, FileView>::empty());
        assert(self@.order =~= Seq::<Seq<char>>::empty());
    }

    /// The root directory.
    pub fn current_dir(&self) -> (dir: String)
        ensures
            dir@ == self@.root,
    {
        self.file_path.clone()
    }

    /// Moves the entry under `old_key` to `new_key`, as it is, in place of
    /// what was there. Without an entry under `old_key` nothing changes.
    pub fn rename(&mut self, old_key: &str, new_key: &str)
        ensures
            final(self)@.entries == moved(old(self)@.entries, old_key@, new_key@),
            old(self)@.entries.dom().contains(old_key@) ==> {
                &&& final(self)@.entries.dom().contains(new_key@)
                &&& final(self)@.entries[new_key@] == old(self)@.entries[old_key@]
                &&& old_key@ != new_key@ ==> !final(self)@.entries.dom().contains(old_key@)
            },
            final(self)@.root == old(self)@.root,
            final(self)@.collapsed == old(self)@.collapsed,
            final(self)@.valid(),
    {
        let mut table = self.take_table();
        match table.take(old_key) {
            Some(file) => {
                table.put(String::from_str(new_key), file);
            },
            None => {},
        }
        self.restore(table);
    }

    /// Drops the entry under `key`, if there is one. The backing file stays.
    pub fn remove(&mut self, key: &str)
        ensures
            final(self)@.entries == old(self)@.entries.remove(key@),
            final(self)@.root == old(self)@.root,
            final(self)@.collapsed == old(self)@.collapsed,
            final(self)@.valid(),
    {
        let _ = self.delete(key);
    }

    /// Takes the entry under `key` out of the store and hands it back.
    pub fn delete(&mut self, key: &str) -> (gone: Option<FileType>)
        ensures
            final(self)@.entries == old(self)@.entries.remove(key@),
            match gone {
                Some(file) => old(self)@.entries.dom().contains(key@) && file@ == old(self)@.entries[key@],
                None => !old(self)@.entries.dom().contains(key@),
            },
            final(self)@.root == old(self)@.root,
            final(self)@.collapsed == old(self)@.collapsed,
            final(self)@.valid(),
    {
        let mut table = self.take_table();
        let gone = table.take(key);
        self.restore(table);
        gone
    }

    /// Sets the dirty flag of the entry under `key`. Without such an entry
    /// nothing changes.
    pub fn mark_dirty(&mut self, key: String)
        ensures
            final(self)@.entries == flagged(old(self)@.entries, key@, true),
            final(self)@.order == old(self)@.order,
            final(self)@.root == old(self)@.root,
            final(self)@.collapsed == old(self)@.collapsed,
    {
        match self.get_file(key.as_str()) {
            Some(file) => {
                file.set_dirty(true);
            },
            None => {},
        }
    }

    /// Collapses the folder `file` if it is not collapsed, and opens it again
    /// if it is.
    pub fn toggle_collapse(&mut self, file: &str)
        ensures
            final(self)@.collapsed == toggled(old(self)@.collapsed, file@),
            final(self)@.entries == old(self)@.entries,
            final(self)@.order == old(self)@.order,
            final(self)@.root == old(self)@.root,
    {
        proof {
            use_type_invariant(&*self);
        }
        let chars = to_chars(file);
        let mut list: Vec<String> = Vec::new();
        core::mem::swap(&mut self.collapsed, &mut list);
        assert(chars@.take(chars@.len() as int) == chars@);
        let mut next = if holds(&list, &chars, chars.len()) {
            without(&list, &chars)
        } else {
            with(list, file)
        };
        core::mem::swap(&mut self.collapsed, &mut next);
    }

    /// Whether `file` is collapsed: it is itself a collapsed folder, or lies
    /// under one.
    pub fn collapsed(&self, file: &str) -> (hidden: bool)
        ensures
            hidden == hides(self@.collapsed, file@),
    {
        let chars = to_chars(file);
        let mut p: usize = 0;
        loop
            invariant
                p <= chars.len(),
                chars@ == file@,
                forall|q: int| 0 <= q < p && is_boundary(chars@, q) ==> !self@.collapsed.contains(#[trigger] chars@.take(q)),
            decreases chars.len() - p,
        {
            if p == chars.len() || chars[p] == '/' {
                if holds(&self.collapsed, &chars, p) {
                    assert(is_boundary(chars@, p as int));
                    return true;
                }
            }
            if p == chars.len() {
                return false;
            }
            p += 1;
        }
    }

    /// A key named after `key` that the store does not hold: `key` itself if
    /// it is free, else `key`, a space and the least number from 1 that
    /// gives a free key. That number is at most the number of entries. The
    /// result depends on the keys of the store and on `key` alone.
    pub fn get_unique_key(&self, key: &str) -> (free: String)
        ensures
            !self@.entries.dom().contains(free@),
            free@ == unique_key(self@.entries.dom(), key@),
            exists|n: nat|
                n <= self@.order.len() && is_first_free(self@.entries.dom(), key@, n) && free@
                    == numbered(key@, n),
    {
        proof {
            use_type_invariant(self);
        }
        let base = to_chars(key);
        let ghost keys = self@.entries.dom();
        let mut count: usize = 0;
        let mut candidate = numbered_key(&base, 0);
        loop
            invariant
                self.wf(),
                base@ == key@,
                keys == self@.entries.dom(),
                candidate@ == numbered(base@, count as nat),
                forall|m: nat| m < count ==> keys.contains(#[trigger] numbered(base@, m)),
                count <= self.table.keys.len(),
            decreases self.table.keys.len() - count,
        {
            let (_, found) = self.table.locate(&candidate);
            if !found {
                proof {
                    assert(is_first_free(keys, key@, count as nat));
                    lemma_first_free_unique(keys, key@, count as nat, count as nat);
                }
                return text_of(&candidate, 0, candidate.len());
            }
            proof {
                let order = texts(self.table.keys@);
                lemma_increasing_distinct(order);
                order.unique_seq_to_set();
                assert(order.to_set() =~= keys);
                lemma_candidates_fit(keys, base@, (count + 1) as nat);
            }
            count += 1;
            candidate = numbered_key(&base, count);
        }
    }

    /// Takes in what a walk of the root directory found: every regular file
    /// becomes a text entry under its relative path, with its content still
    /// unread and not dirty, in place of an entry of that key. A folder that
    /// could not be read is passed over. Where the root itself could not be
    /// read, `listing` is `None`, the load fails and the store is unchanged.
    /// Entries under other keys stay.
    pub fn load(&mut self, listing: Option<Vec<Listed>>) -> (r: Result<(), LoadError>)
        ensures
            match listing {
                Some(items) => {
                    &&& r is Ok
                    &&& final(self)@.entries == absorbed(
                        old(self)@.entries,
                        items@,
                        items@.len(),
                        Seq::empty(),
                    )
                    &&& final(self)@.entries.dom() == old(self)@.entries.dom().union(
                        listed_keys(items@, items@.len(), Seq::empty()),
                    )
                },
                None => r == Err::<(), LoadError>(LoadError::RootUnreadable) && final(self)@.entries
                    == old(self)@.entries,
            },
            final(self)@.root == old(self)@.root,
            final(self)@.collapsed == old(self)@.collapsed,
            final(self)@.valid(),
    {
        proof {
            use_type_invariant(&*self);
        }
        match listing {
            Some(items) => {
                let mut table = self.take_table();
                proof {
                    reveal_strlit("");
                    assert(""@ =~= Seq::<char>::empty());
                    lemma_absorbed_keys(table.entries(), items@, items@.len(), Seq::empty());
                }
                table.absorb(&items, "");
                self.restore(table);
                Ok(())
            },
            None => Err(LoadError::RootUnreadable),
        }
    }

    /// The path of the backing file that has to be read before the content
    /// under `key` can be handed out, if there is one.
    pub fn pending_read(&self, key: &str) -> (path: Option<String>)
        ensures
            opt_view(path) == self@.unread_path(key@),
    {
        proof {
            use_type_invariant(self);
        }
        let chars = to_chars(key);
        let (p, found) = self.table.locate(&chars);
        if !found {
            return None;
        }
        proof {
            lemma_mapping_at(texts(self.table.keys@), views(self.table.files@), p as int);
        }
        match &self.table.files[p] {
            FileType::Text(file) => match &file.content {
                Some(_) => None,
                None => Some(file.path.clone()),
            },
            FileType::Image(_) => None,
        }
    }

    /// The content under `key`. Where it is not in memory yet, `disk` is
    /// taken for it and kept: the text read from the backing file. With no
    /// such text the content is unreadable and the entry stays as it is.
    pub fn get_contents(&mut self, key: &str, disk: Option<String>) -> (r: Result<
        String,
        ContentError,
    >)
        ensures
            final(self)@.entries == fetched(old(self)@.entries, key@, opt_view(disk)).0,
            answer_view(r) == fetched(old(self)@.entries, key@, opt_view(disk)).1,
            final(self)@.order == old(self)@.order,
            final(self)@.root == old(self)@.root,
            final(self)@.collapsed == old(self)@.collapsed,
    {
        match self.get_file(key) {
            None => Err(ContentError::NotFound),
            Some(file) => match file {
                FileType::Image(_) => {
                    let text = String::new();
                    assert(old(self)@.entries.insert(key@, old(self)@.entries[key@]) =~= old(
                        self,
                    )@.entries);
                    Ok(text)
                },
                FileType::Text(text_file) => {
                    if text_file.content.is_none() && disk.is_none() {
                        assert(old(self)@.entries.insert(key@, old(self)@.entries[key@]) =~= old(
                            self,
                        )@.entries);
                        Err(ContentError::Unreadable)
                    } else {
                        let text = text_file.get_contents(disk);
                        assert(text_file.content is Some);
                        assert(old(self)@.entries.insert(key@, old(self)@.entries[key@]) =~= old(
                            self,
                        )@.entries);
                        Ok(text)
                    }
                },
            },
        }
    }

    /// The writes that save the store: one for each text entry whose dirty
    /// flag is set, in the order of the keys, and none for any other entry.
    /// The store itself is not changed: once a write has been carried out,
    /// [`Database::mark_saved`] clears the flag of its entry.
    pub fn save_all(&self) -> (writes: Vec<FileWrite>)
        ensures
            write_views(writes@) == self@.pending_writes(),
            forall|i: int|
                0 <= i < writes@.len() ==> self@.is_dirty_text((#[trigger] writes@[i]).key@),
            forall|k: Seq<char>|
                self@.is_dirty_text(k) ==> exists|i: int|
                    0 <= i < writes@.len() && (#[trigger] writes@[i]).key@ == k,
    {
        proof {
            use_type_invariant(self);
        }
        let ghost store = self@;
        let mut writes: Vec<FileWrite> = Vec::new();
        let mut i: usize = 0;
        while i < self.table.keys.len()
            invariant
                i <= self.table.keys.len(),
                self.wf(),
                store == self@,
                write_views(writes@) == store.writes_upto(i as nat),
            decreases self.table.keys.len() - i,
        {
            proof {
                lemma_mapping_at(texts(self.table.keys@), views(self.table.files@), i as int);
            }
            let ghost before = write_views(writes@);
            match &self.table.files[i] {
                FileType::Text(file) => {
                    if file.dirty {
                        let key = self.table.keys[i].clone();
                        let path = join_disk_path(self.file_path.as_str(), key.as_str());
                        let content = match &file.content {
                            Some(text) => Some(text.clone()),
                            None => None,
                        };
                        writes.push(FileWrite { key, path, content });
                        assert(write_views(writes@) =~= before.push(
                            store.write_of(store.order[i as int]),
                        ));
                    }
                },
                FileType::Image(_) => {},
            }
            i += 1;
        }
        proof {
            lemma_writes_are_the_dirty(store, store.order.len());
            assert forall|i: int| 0 <= i < writes@.len() implies self@.is_dirty_text(
                (#[trigger] writes@[i]).key@,
            ) by {
                assert(write_views(writes@)[i] == writes@[i]@);
            }
            assert forall|k: Seq<char>| self@.is_dirty_text(k) implies exists|i: int|
                0 <= i < writes@.len() && (#[trigger] writes@[i]).key@ == k by {
                let j = store.order.index_of(k);
                assert(store.order[j] == k);
                let i = choose|i: int|
                    0 <= i < store.pending_writes().len() && (#[trigger] store.pending_writes()[i]).key
                        == store.order[j];
                assert(write_views(writes@)[i] == writes@[i]@);
            }
        }
        writes
    }

    /// The write that saves the entry under `file`, dirty or not; an image
    /// is not written. The store must hold the key.
    pub fn save(&self, file: &str) -> (write: Option<FileWrite>)
        requires
            self@.entries.dom().contains(file@),
        ensures
            match write {
                Some(w) => self@.entries[file@] is Text && w@ == self@.write_of(file@),
                None => self@.entries[file@] is Image,
            },
    {
        proof {
            use_type_invariant(self);
        }
        let chars = to_chars(file);
        let (p, found) = self.table.locate(&chars);
        proof {
            lemma_mapping_at(texts(self.table.keys@), views(self.table.files@), p as int);
        }
        match &self.table.files[p] {
            FileType::Text(text_file) => {
                let path = join_disk_path(self.file_path.as_str(), file);
                let content = match &text_file.content {
                    Some(text) => Some(text.clone()),
                    None => None,
                };
                Some(FileWrite { key: String::from_str(file), path, content })
            },
            FileType::Image(_) => None,
        }
    }

    /// Clears the dirty flag of the entry under `key`, once its write has
    /// been carried out. Without such an entry nothing changes.
    pub fn mark_saved(&mut self, key: &str)
        ensures
            final(self)@.entries == flagged(old(self)@.entries, key@, false),
            final(self)@.order == old(self)@.order,
            final(self)@.root == old(self)@.root,
            final(self)@.collapsed == old(self)@.collapsed,
    {
        match self.get_file(key) {
            Some(file) => {
                file.set_dirty(false);
            },
            None => {},
        }
    }

    /// The path on disk of the backing file of `name`, for the caller to
    /// unlink. The store is not changed.
    pub fn delete_file(&self, name: &str) -> (path: String)
        ensures
            path@ == disk_path(self@.root, name@),
    {
        join_disk_path(self.file_path.as_str(), name)
    }

    /// The number of entries.
    pub fn len(&self) -> (n: usize)
        ensures
            n == self@.order.len(),
    {
        proof {
            use_type_invariant(self);
        }
        self.table.keys.len()
    }

    /// The key at the place `i` of the walk, and its entry.
    pub fn entry_at(&self, i: usize) -> (r: (&String, &FileType))
        requires
            i < self@.order.len(),
        ensures
            r.0@ == self@.order[i as int],
            self@.entries.dom().contains(r.0@),
            r.1@ == self@.entries[r.0@],
            self@.valid(),
    {
        proof {
            use_type_invariant(self);
            lemma_mapping_at(texts(self.table.keys@), views(self.table.files@), i as int);
        }
        (&self.table.keys[i], &self.table.files[i])
    }
}

} // verus!
