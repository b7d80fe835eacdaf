//! What the events of the window do to the store, the session and the tree
//! view. Each function takes what the window holds as plain values, and
//! hands back what the caller is to show, write or unlink.

use crate::cache::{
    answer_view, fetched, flagged, moved, toggled, write_views, ContentError, Database, FileWrite,
    LoadError,
};
use crate::file_types::{opt_view, FileView, TextFileView};
use crate::listing::{absorbed, Listed};
use crate::numbering::unique_key;
use crate::path::{cleaned, disk_path, remove_invalid_dirs};
use crate::session::{flushed, Session};
use crate::state::State;
use crate::text::{prefix_is, to_chars};
use crate::tree::{build_file_tree, file_tree, has_path, node_views, TreeNode, TreeNodeView};
use vstd::prelude::*;

verus! {

/// What a click on a line of the tree asks for.
#[derive(Debug, PartialEq, Eq)]
pub enum Click {
    /// The line is a stored file: it is to be opened.
    Open(String),
    /// The line is a folder: it has been collapsed, or opened again, and the
    /// tree is to be built anew.
    Toggled,
    /// There is no such line.
    Missed,
}

/// What a new file brought about.
#[derive(Debug, PartialEq, Eq)]
pub struct NewFile {
    /// The key of the new file.
    pub name: String,
    /// The answer of the store to the request for its content.
    pub shown: Result<String, ContentError>,
    /// The write that puts the new file on disk.
    pub write: Option<FileWrite>,
}

/// What a rename brought about.
#[derive(Debug, PartialEq, Eq)]
pub struct Renamed {
    /// The new key, in its clean form.
    pub name: String,
    /// The path of the backing file of the old key, if it is to be unlinked.
    pub unlink: Option<String>,
}

/// The base of the keys of new files.
pub open spec fn new_file_base() -> Seq<char> {
    seq!['n', 'e', 'w', ' ', 'f', 'i', 'l', 'e']
}

/// The entry of a new file under `key`: an empty text, dirty.
pub open spec fn empty_entry(key: Seq<char>) -> FileView {
    FileView::Text(TextFileView { path: key, content: Some(Seq::empty()), dirty: true })
}

/// The lines of the tree once those named `name` have been struck, from
/// the line `i` on: the line behind a struck one is passed over.
pub open spec fn struck_from(nodes: Seq<TreeNodeView>, name: Seq<char>, i: int) -> Seq<TreeNodeView>
    decreases nodes.len() - i + 1,
{
    if i < 0 || i >= nodes.len() {
        nodes
    } else if nodes[i].name == name {
        struck_from(nodes.remove(i), name, i + 1)
    } else {
        struck_from(nodes, name, i + 1)
    }
}

/// An edit in the text box: with no open file a new file is wanted, and
/// nothing changes; else the open file is marked dirty.
pub fn handle_textbox_edit(db: &mut Database, session: &Session) -> (wants_new_file: bool)
    ensures
        wants_new_file == (session.current_file is None),
        final(db)@.entries == match session.current_file {
            Some(key) => flagged(old(db)@.entries, key@, true),
            None => old(db)@.entries,
        },
        final(db)@.order == old(db)@.order,
        final(db)@.root == old(db)@.root,
        final(db)@.collapsed == old(db)@.collapsed,
{
    match &session.current_file {
        None => true,
        Some(key) => {
            db.mark_dirty(key.clone());
            false
        },
    }
}

/// A click on the line `index` of the tree: a line whose path is a key of
/// the store is to be opened; any other line is a folder, which is toggled.
pub fn handle_click_file_tree(db: &mut Database, nodes: &Vec<TreeNode>, index: usize) -> (click:
    Click)
    ensures
        final(db)@.entries == old(db)@.entries,
        final(db)@.order == old(db)@.order,
        final(db)@.root == old(db)@.root,
        match click {
            Click::Open(path) => {
                &&& index < nodes.len()
                &&& path@ == nodes[index as int].full_path@
                &&& old(db)@.entries.dom().contains(path@)
                &&& final(db)@.collapsed == old(db)@.collapsed
            },
            Click::Toggled => {
                &&& index < nodes.len()
                &&& !old(db)@.entries.dom().contains(nodes[index as int].full_path@)
                &&& final(db)@.collapsed == toggled(
                    old(db)@.collapsed,
                    nodes[index as int].full_path@,
                )
            },
            Click::Missed => index >= nodes.len() && final(db)@.collapsed == old(db)@.collapsed,
        },
{
    if index >= nodes.len() {
        return Click::Missed;
    }
    let path = nodes[index].full_path.as_str();
    if db.contains(path) {
        Click::Open(nodes[index].full_path.clone())
    } else {
        db.toggle_collapse(path);
        Click::Toggled
    }
}

/// The button for a new file: an empty text is put into the store under a
/// free key named after "new file", and opened in place of the open file,
/// whose text goes back into the store first. The tree is built anew.
pub fn handle_new_file_button(
    db: &mut Database,
    state: &mut State,
    session: &mut Session,
    nodes: &mut Vec<TreeNode>,
    editor: String,
) -> (made: NewFile)
    ensures
        made.name@ == unique_key(old(db)@.entries.dom(), new_file_base()),
        ({
            let created = old(db)@.entries.insert(made.name@, empty_entry(made.name@));
            let before = flushed(created, opt_view(old(session).current_file), editor@);
            &&& final(db)@.entries == fetched(before, made.name@, None).0
            &&& answer_view(made.shown) == fetched(before, made.name@, None).1
        }),
        made.write matches Some(w) && w@ == final(db)@.write_of(made.name@),
        opt_view(final(session).current_file) == Some(made.name@),
        opt_view(final(state).last_open_file) == Some(made.name@),
        final(state).data_dir == old(state).data_dir,
        final(state).background_image_path == old(state).background_image_path,
        final(state).theme == old(state).theme,
        final(db)@.root == old(db)@.root,
        final(db)@.collapsed == old(db)@.collapsed,
        node_views(final(nodes)@) == file_tree(final(db)@),
{
    proof {
        reveal_strlit("new file");
        assert("new file"@ =~= new_file_base());
        reveal_strlit("");
        assert(""@ =~= Seq::<char>::empty());
    }
    let name = db.get_unique_key("new file");
    db.insert(name.clone(), String::from_str(""));
    let shown = session.open(db, state, nodes, editor, name.clone(), None);
    let write = db.save(name.as_str());
    *nodes = build_file_tree(db);
    NewFile { name, shown, write }
}

/// The end of the program: the text of the editor goes back into the
/// store, no file is open any more, and the writes that save the store are
/// handed back.
pub fn handle_close(db: &mut Database, session: &mut Session, editor: String) -> (writes: Vec<
    FileWrite,
>)
    ensures
        final(db)@.entries == flushed(
            old(db)@.entries,
            opt_view(old(session).current_file),
            editor@,
        ),
        final(db)@.root == old(db)@.root,
        final(db)@.collapsed == old(db)@.collapsed,
        final(session).current_file is None,
        write_views(writes@) == final(db)@.pending_writes(),
{
    session.close(db, editor);
    db.save_all()
}

/// A change of the directory to `p`, whose walk gave `listing`: the text of
/// the editor goes back into the store and no file is open any more; then
/// the store moves to `p`, drops its entries and takes in the listing. The
/// settings remember the directory and the tree is built anew. Where `p`
/// could not be read the store is left empty on `p`, and the settings are
/// not touched.
pub fn handle_change_dir(
    db: &mut Database,
    state: &mut State,
    session: &mut Session,
    nodes: &mut Vec<TreeNode>,
    editor: String,
    p: String,
    listing: Option<Vec<Listed>>,
) -> (r: Result<(), LoadError>)
    ensures
        final(db)@.root == p@,
        final(db)@.collapsed == old(db)@.collapsed,
        final(session).current_file is None,
        final(state).background_image_path == old(state).background_image_path,
        final(state).last_open_file == old(state).last_open_file,
        final(state).theme == old(state).theme,
        match listing {
            Some(items) => {
                &&& r is Ok
                &&& final(db)@.entries == absorbed(
                    Map::<Seq<char>, FileView>::empty(),
                    items@,
                    items@.len(),
                    Seq::empty(),
                )
                &&& final(state).data_dir@ == p@
                &&& node_views(final(nodes)@) == file_tree(final(db)@)
            },
            None => {
                &&& r == Err::<(), LoadError>(LoadError::RootUnreadable)
                &&& final(db)@.entries == Map::<Seq<char>, FileView>::empty()
                &&& final(state).data_dir == old(state).data_dir
                &&& final(nodes)@ == old(nodes)@
            },
        },
{
    session.close(db, editor);
    db.change_dirs(p.clone());
    match db.load(listing) {
        Ok(()) => {
            *nodes = build_file_tree(db);
            state.data_dir = p;
            Ok(())
        },
        Err(e) => Err(e),
    }
}

/// Whether a key press asks for the search popup: the letter t, small or
/// capital, with the control key held.
pub fn handle_shortcuts(control: bool, text: &str) -> (search: bool)
    ensures
        search == (control && (text@ == seq!['t'] || text@ == seq!['T'])),
{
    if !control {
        return false;
    }
    let chars = to_chars(text);
    if chars.len() != 1 {
        return false;
    }
    let hit = chars[0] == 't' || chars[0] == 'T';
    proof {
        if hit {
            assert(text@ =~= seq![chars@[0]]);
        }
    }
    hit
}

/// The deletion of `to_delete`. If it is the open file, the text of the
/// editor goes back into the store and no file is open any more. Then the
/// lines of the tree are gone through: each line named `to_delete` is
/// struck, the entry under that key leaves the store, and the path of its
/// backing file is handed back to be unlinked.
pub fn handle_delete(
    db: &mut Database,
    session: &mut Session,
    nodes: &mut Vec<TreeNode>,
    editor: String,
    to_delete: &str,
) -> (unlink: Vec<String>)
    ensures
        ({
            let open = opt_view(old(session).current_file) == Some(to_delete@);
            let before = if open {
                flushed(old(db)@.entries, opt_view(old(session).current_file), editor@)
            } else {
                old(db)@.entries
            };
            &&& final(db)@.entries == if unlink@.len() > 0 {
                before.remove(to_delete@)
            } else {
                before
            }
            &&& opt_view(final(session).current_file) == if open {
                None
            } else {
                opt_view(old(session).current_file)
            }
        }),
        node_views(final(nodes)@) == struck_from(node_views(old(nodes)@), to_delete@, 0),
        unlink@.len() == old(nodes)@.len() - final(nodes)@.len(),
        forall|i: int|
            0 <= i < unlink@.len() ==> (#[trigger] unlink@[i])@ == disk_path(
                old(db)@.root,
                to_delete@,
            ),
        final(db)@.root == old(db)@.root,
        final(db)@.collapsed == old(db)@.collapsed,
{
    let name = to_chars(to_delete);
    let open = match &session.current_file {
        Some(current) => {
            let chars = to_chars(current.as_str());
            assert(chars@.take(chars@.len() as int) == chars@);
            prefix_is(&chars, chars.len(), &name)
        },
        None => false,
    };
    if open {
        session.close(db, editor);
    }
    let ghost before = db@.entries;
    let ghost lines = node_views(nodes@);
    let mut unlink: Vec<String> = Vec::new();
    let mut i: usize = 0;
    while i < nodes.len()
        invariant
            name@ == to_delete@,
            db@.root == old(db)@.root,
            db@.collapsed == old(db)@.collapsed,
            struck_from(node_views(nodes@), name@, i as int) == struck_from(lines, name@, 0),
            unlink@.len() + nodes@.len() == lines.len(),
            db@.entries == if unlink@.len() > 0 {
                before.remove(name@)
            } else {
                before
            },
            forall|j: int|
                0 <= j < unlink@.len() ==> (#[trigger] unlink@[j])@ == disk_path(
                    old(db)@.root,
                    to_delete@,
                ),
        decreases nodes.len() - i + 1,
    {
        let here = to_chars(nodes[i].name.as_str());
        assert(here@.take(here@.len() as int) == here@);
        let ghost shown = node_views(nodes@);
        assert(shown[i as int].name == here@);
        if prefix_is(&here, here.len(), &name) {
            unlink.push(db.delete_file(to_delete));
            db.remove(to_delete);
            let _ = nodes.remove(i);
            assert(node_views(nodes@) =~= shown.remove(i as int));
            assert(before.remove(name@).remove(name@) =~= before.remove(name@));
        }
        i += 1;
    }
    unlink
}

/// The rename of the open file to `new_name`: the entry moves to the clean
/// form of that name, which becomes the open file. Where the old key has a
/// line in the tree, the path of its backing file is handed back to be
/// unlinked. The tree is built anew. A file must be open.
pub fn handle_rename(
    db: &mut Database,
    session: &mut Session,
    nodes: &mut Vec<TreeNode>,
    new_name: String,
) -> (done: Renamed)
    requires
        old(session).current_file is Some,
    ensures
        done.name@ == cleaned(new_name@, new_name@.len() as int),
        final(db)@.entries == moved(
            old(db)@.entries,
            old(session).current_file->0@,
            done.name@,
        ),
        opt_view(done.unlink) == if has_path(
            node_views(old(nodes)@),
            old(session).current_file->0@,
        ) {
            Some(disk_path(old(db)@.root, old(session).current_file->0@))
        } else {
            None
        },
        opt_view(final(session).current_file) == Some(done.name@),
        final(db)@.root == old(db)@.root,
        final(db)@.collapsed == old(db)@.collapsed,
        node_views(final(nodes)@) == file_tree(final(db)@),
{
    let name = remove_invalid_dirs(new_name);
    let current = match &session.current_file {
        Some(key) => key.clone(),
        None => String::new(),
    };
    db.rename(current.as_str(), name.as_str());
    let key = to_chars(current.as_str());
    assert(key@.take(key@.len() as int) == key@);
    let unlink = if crate::tree::seen(nodes, &key, key.len()) {
        Some(db.delete_file(current.as_str()))
    } else {
        None
    };
    *nodes = build_file_tree(db);
    session.current_file = Some(name.clone());
    Renamed { name, unlink }
}

} // verus!
