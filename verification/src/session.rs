//! The file that is open in the editor, and what opening another one does
//! to the store and to the tree view.

use crate::cache::{answer_view, fetched, ContentError, Database};
use crate::file_types::{opt_view, FileView, TextFileView};
use crate::state::State;
use crate::tree::{mark_open, node_views, opened, TreeNode};
use vstd::prelude::*;

verus! {

/// What the program holds besides the store while it runs.
#[derive(Debug, PartialEq, Eq)]
pub struct Session {
    /// The key of the file that is open in the editor.
    pub current_file: Option<String>,
}

/// The entries once the text of the editor has been put back under the key
/// of the open file: a dirty text with that content. With no open file they
/// stay as they are.
pub open spec fn flushed(
    entries: Map<Seq<char>, FileView>,
    current: Option<Seq<char>>,
    editor: Seq<char>,
) -> Map<Seq<char>, FileView> {
    match current {
        Some(key) => entries.insert(
            key,
            FileView::Text(TextFileView { path: key, content: Some(editor), dirty: true }),
        ),
        None => entries,
    }
}

impl Session {
    /// A session with no open file.
    pub fn new() -> (session: Session)
        ensures
            session.current_file is None,
    {
        Session { current_file: None }
    }

    /// Puts the text of the editor into the store, under the key of the open
    /// file. This is due before the store is saved, searched or shown as a
    /// tree.
    pub fn flush(&self, db: &mut Database, editor: String)
        ensures
            final(db)@.entries == flushed(old(db)@.entries, opt_view(self.current_file), editor@),
            final(db)@.root == old(db)@.root,
            final(db)@.collapsed == old(db)@.collapsed,
    {
        match &self.current_file {
            Some(key) => {
                db.insert(key.clone(), editor);
            },
            None => {},
        }
    }

    /// Puts the text of the editor into the store and leaves no file open.
    pub fn close(&mut self, db: &mut Database, editor: String)
        ensures
            final(db)@.entries == flushed(
                old(db)@.entries,
                opt_view(old(self).current_file),
                editor@,
            ),
            final(db)@.root == old(db)@.root,
            final(db)@.collapsed == old(db)@.collapsed,
            final(self).current_file is None,
    {
        self.flush(db, editor);
        self.current_file = None;
    }

    /// Opens the file `key` in place of the open file, whose text goes back
    /// into the store first. The node of `key` is marked as open in the
    /// tree, and no other; the content of `key` is asked of the store, with
    /// `disk` as what a read of its backing file gave; `key` becomes the
    /// open file and the last open file of the settings. The answer of the
    /// store is handed back for the editor to show.
    pub fn open(
        &mut self,
        db: &mut Database,
        state: &mut State,
        nodes: &mut Vec<TreeNode>,
        editor: String,
        key: String,
        disk: Option<String>,
    ) -> (answer: Result<String, ContentError>)
        ensures
            ({
                let before = flushed(old(db)@.entries, opt_view(old(self).current_file), editor@);
                &&& final(db)@.entries == fetched(before, key@, opt_view(disk)).0
                &&& answer_view(answer) == fetched(before, key@, opt_view(disk)).1
            }),
            final(db)@.root == old(db)@.root,
            final(db)@.collapsed == old(db)@.collapsed,
            opt_view(final(self).current_file) == Some(key@),
            opt_view(final(state).last_open_file) == Some(key@),
            final(state).data_dir == old(state).data_dir,
            final(state).background_image_path == old(state).background_image_path,
            final(state).theme == old(state).theme,
            node_views(final(nodes)@) == opened(node_views(old(nodes)@), key@),
    {
        self.flush(db, editor);
        mark_open(nodes, key.as_str());
        let answer = db.get_contents(key.as_str(), disk);
        state.last_open_file = Some(key.clone());
        self.current_file = Some(key);
        answer
    }

    /// Opens `file` as [`Session::open`] does, or with no file closes the
    /// open file as [`Session::close`] does.
    pub fn open_file(
        &mut self,
        db: &mut Database,
        state: &mut State,
        nodes: &mut Vec<TreeNode>,
        editor: String,
        file: Option<String>,
        disk: Option<String>,
    ) -> (shown: Option<Result<String, ContentError>>)
        ensures
            final(db)@.root == old(db)@.root,
            final(db)@.collapsed == old(db)@.collapsed,
            final(state).data_dir == old(state).data_dir,
            final(state).background_image_path == old(state).background_image_path,
            final(state).theme == old(state).theme,
            opt_view(final(self).current_file) == opt_view(file),
            match file {
                Some(key) => {
                    let before = flushed(
                        old(db)@.entries,
                        opt_view(old(self).current_file),
                        editor@,
                    );
                    &&& final(db)@.entries == fetched(before, key@, opt_view(disk)).0
                    &&& shown matches Some(answer)
                    &&& answer_view(answer) == fetched(before, key@, opt_view(disk)).1
                    &&& opt_view(final(state).last_open_file) == Some(key@)
                    &&& node_views(final(nodes)@) == opened(node_views(old(nodes)@), key@)
                },
                None => {
                    &&& final(db)@.entries == flushed(
                        old(db)@.entries,
                        opt_view(old(self).current_file),
                        editor@,
                    )
                    &&& shown is None
                    &&& final(state).last_open_file == old(state).last_open_file
                    &&& final(nodes)@ == old(nodes)@
                },
            },
    {
        match file {
            Some(key) => Some(self.open(db, state, nodes, editor, key, disk)),
            None => {
                self.close(db, editor);
                None
            },
        }
    }
}

} // verus!
