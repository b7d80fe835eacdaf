use notestore::cache::{ContentError, Database, LoadError};
use notestore::hooks::{
    handle_change_dir, handle_click_file_tree, handle_close, handle_delete, handle_new_file_button,
    handle_rename, handle_shortcuts, handle_textbox_edit, Click,
};
use notestore::listing::Listed;
use notestore::session::Session;
use notestore::state::State;
use notestore::tree::{build_file_tree, TreeNode};

fn file(name: &str, path: &str) -> Listed {
    Listed::File { name: name.to_string(), path: path.to_string() }
}

fn loaded() -> Database {
    let mut db = Database::new("/data");
    let listing = vec![
        file("a", "/data/a"),
        Listed::Folder { name: "dir".to_string(), items: Some(vec![file("b", "/data/dir/b")]) },
    ];
    db.load(Some(listing)).unwrap();
    db
}

fn paths(nodes: &[TreeNode]) -> Vec<String> {
    nodes.iter().map(|n| n.full_path.clone()).collect()
}

fn keys(db: &Database) -> Vec<String> {
    db.keys().into_iter().cloned().collect()
}

#[test]
fn an_edit_marks_the_open_file_dirty() {
    let mut db = loaded();
    let session = Session { current_file: Some("a".to_string()) };
    assert!(!handle_textbox_edit(&mut db, &session));
    let writes = db.save_all();
    assert_eq!(writes.len(), 1);
    assert_eq!(writes[0].key, "a");
}

#[test]
fn an_edit_without_an_open_file_asks_for_a_new_file() {
    let mut db = loaded();
    assert!(handle_textbox_edit(&mut db, &Session::new()));
    assert!(db.save_all().is_empty());
    assert_eq!(db.len(), 2);
}

#[test]
fn a_click_on_a_file_asks_to_open_it() {
    let mut db = loaded();
    let nodes = build_file_tree(&db);
    assert_eq!(handle_click_file_tree(&mut db, &nodes, 0), Click::Open("a".to_string()));
    assert_eq!(handle_click_file_tree(&mut db, &nodes, 2), Click::Open("dir/b".to_string()));
    assert!(!db.collapsed("a"));
}

#[test]
fn a_click_on_a_folder_toggles_it() {
    let mut db = loaded();
    let nodes = build_file_tree(&db);
    assert_eq!(handle_click_file_tree(&mut db, &nodes, 1), Click::Toggled);
    assert!(db.collapsed("dir"));
    assert_eq!(paths(&build_file_tree(&db)), vec!["a", "dir"]);
    assert_eq!(handle_click_file_tree(&mut db, &nodes, 1), Click::Toggled);
    assert!(!db.collapsed("dir"));
}

#[test]
fn a_click_beside_the_lines_does_nothing() {
    let mut db = loaded();
    let nodes = build_file_tree(&db);
    assert_eq!(handle_click_file_tree(&mut db, &nodes, 3), Click::Missed);
    assert_eq!(handle_click_file_tree(&mut db, &Vec::new(), 0), Click::Missed);
    assert_eq!(paths(&build_file_tree(&db)), vec!["a", "dir", "dir/b"]);
}

#[test]
fn a_new_file_gets_a_free_key_and_is_opened() {
    let mut db = loaded();
    let mut state = State::new();
    let mut session = Session { current_file: Some("a".to_string()) };
    let mut nodes = build_file_tree(&db);
    let made = handle_new_file_button(&mut db, &mut state, &mut session, &mut nodes, "text of a".to_string());
    assert_eq!(made.name, "new file");
    assert_eq!(made.shown, Ok(String::new()));
    let write = made.write.unwrap();
    assert_eq!((write.key.as_str(), write.path.as_str()), ("new file", "/data/new file"));
    assert_eq!(write.content, Some(String::new()));
    assert_eq!(session.current_file, Some("new file".to_string()));
    assert_eq!(state.last_open_file, Some("new file".to_string()));
    assert_eq!(paths(&nodes), vec!["a", "dir", "dir/b", "new file"]);
    assert!(nodes.iter().all(|n| !n.open));
    assert_eq!(db.get_contents("a", None), Ok("text of a".to_string()));

    let again = handle_new_file_button(&mut db, &mut state, &mut session, &mut nodes, "typed".to_string());
    assert_eq!(again.name, "new file 1");
    assert_eq!(db.get_contents("new file", None), Ok("typed".to_string()));
    assert_eq!(keys(&db), vec!["a", "dir/b", "new file", "new file 1"]);
}

#[test]
fn closing_hands_back_the_writes_of_the_dirty_texts() {
    let mut db = loaded();
    let mut session = Session { current_file: Some("dir/b".to_string()) };
    let writes = handle_close(&mut db, &mut session, "last words".to_string());
    assert_eq!(session.current_file, None);
    assert_eq!(writes.len(), 1);
    assert_eq!(writes[0].key, "dir/b");
    assert_eq!(writes[0].path, "/data/dir/b");
    assert_eq!(writes[0].content, Some("last words".to_string()));
    let none = handle_close(&mut db, &mut session, "ignored".to_string());
    assert_eq!(none.len(), 1);
    db.mark_saved("dir/b");
    assert!(handle_close(&mut db, &mut session, "ignored".to_string()).is_empty());
}

#[test]
fn a_change_of_directory_loads_the_new_one() {
    let mut db = loaded();
    db.toggle_collapse("x");
    let mut state = State::new();
    let mut session = Session { current_file: Some("a".to_string()) };
    let mut nodes = build_file_tree(&db);
    let listing = vec![file("z", "/other/z"), Listed::Folder { name: "x".to_string(), items: Some(vec![file("y", "/other/x/y")]) }];
    let r = handle_change_dir(
        &mut db,
        &mut state,
        &mut session,
        &mut nodes,
        "unsaved".to_string(),
        "/other".to_string(),
        Some(listing),
    );
    assert_eq!(r, Ok(()));
    assert_eq!(db.current_dir(), "/other");
    assert_eq!(state.data_dir, "/other");
    assert_eq!(session.current_file, None);
    assert_eq!(keys(&db), vec!["x/y", "z"]);
    assert_eq!(paths(&nodes), vec!["x", "z"]);
    assert!(db.save_all().is_empty());
}

#[test]
fn a_change_to_a_directory_that_cannot_be_read_fails() {
    let mut db = loaded();
    let mut state = State::new();
    let mut session = Session::new();
    let mut nodes = build_file_tree(&db);
    let r = handle_change_dir(&mut db, &mut state, &mut session, &mut nodes, String::new(), "/gone".to_string(), None);
    assert_eq!(r, Err(LoadError::RootUnreadable));
    assert_eq!(db.current_dir(), "/gone");
    assert_eq!(db.len(), 0);
    assert_eq!(state.data_dir, "cache");
    assert_eq!(paths(&nodes), vec!["a", "dir", "dir/b"]);
}

#[test]
fn control_t_asks_for_the_search() {
    assert!(handle_shortcuts(true, "t"));
    assert!(handle_shortcuts(true, "T"));
    assert!(!handle_shortcuts(false, "t"));
    assert!(!handle_shortcuts(true, "s"));
    assert!(!handle_shortcuts(true, "tt"));
    assert!(!handle_shortcuts(true, ""));
    assert!(!handle_shortcuts(true, "ŧ"));
}

#[test]
fn deleting_a_file_strikes_its_line_and_its_entry() {
    let mut db = loaded();
    let mut session = Session { current_file: Some("dir/b".to_string()) };
    let mut nodes = build_file_tree(&db);
    let unlink = handle_delete(&mut db, &mut session, &mut nodes, "text".to_string(), "a");
    assert_eq!(unlink, vec!["/data/a".to_string()]);
    assert_eq!(paths(&nodes), vec!["dir", "dir/b"]);
    assert_eq!(keys(&db), vec!["dir/b"]);
    assert_eq!(session.current_file, Some("dir/b".to_string()));
    assert!(db.save_all().is_empty());
}

#[test]
fn deleting_the_open_file_closes_it_first() {
    let mut db = loaded();
    let mut session = Session { current_file: Some("a".to_string()) };
    let mut nodes = build_file_tree(&db);
    let unlink = handle_delete(&mut db, &mut session, &mut nodes, "text".to_string(), "a");
    assert_eq!(unlink, vec!["/data/a".to_string()]);
    assert_eq!(session.current_file, None);
    assert!(!db.contains("a"));
}

#[test]
fn deleting_goes_by_the_name_of_the_line() {
    let mut db = loaded();
    let mut session = Session::new();
    let mut nodes = build_file_tree(&db);
    let unlink = handle_delete(&mut db, &mut session, &mut nodes, String::new(), "b");
    assert_eq!(unlink, vec!["/data/b".to_string()]);
    assert_eq!(paths(&nodes), vec!["a", "dir"]);
    assert_eq!(keys(&db), vec!["a", "dir/b"]);
    let unlink = handle_delete(&mut db, &mut session, &mut nodes, String::new(), "zzz");
    assert!(unlink.is_empty());
    assert_eq!(paths(&nodes), vec!["a", "dir"]);
}

#[test]
fn the_line_behind_a_struck_line_is_passed_over() {
    let mut db = Database::new("/data");
    for k in ["x/n", "y/n", "z/n"] {
        db.insert(k.to_string(), String::new());
    }
    db.insert("n".to_string(), String::new());
    let mut session = Session::new();
    let mut nodes = build_file_tree(&db);
    assert_eq!(paths(&nodes), vec!["n", "x", "x/n", "y", "y/n", "z", "z/n"]);
    nodes.remove(5);
    nodes.remove(3);
    nodes.remove(1);
    assert_eq!(paths(&nodes), vec!["n", "x/n", "y/n", "z/n"]);
    let unlink = handle_delete(&mut db, &mut session, &mut nodes, String::new(), "n");
    assert_eq!(unlink, vec!["/data/n".to_string(), "/data/n".to_string()]);
    assert_eq!(paths(&nodes), vec!["x/n", "z/n"]);
    assert_eq!(keys(&db), vec!["x/n", "y/n", "z/n"]);
}

#[test]
fn renaming_moves_the_open_file_to_the_clean_name() {
    let mut db = loaded();
    db.get_contents("a", Some("text of a".to_string())).unwrap();
    let mut session = Session { current_file: Some("a".to_string()) };
    let mut nodes = build_file_tree(&db);
    let done = handle_rename(&mut db, &mut session, &mut nodes, "//notes///a.txt".to_string());
    assert_eq!(done.name, "notes/a.txt");
    assert_eq!(done.unlink, Some("/data/a".to_string()));
    assert_eq!(session.current_file, Some("notes/a.txt".to_string()));
    assert_eq!(keys(&db), vec!["dir/b", "notes/a.txt"]);
    assert_eq!(db.get_contents("notes/a.txt", None), Ok("text of a".to_string()));
    assert_eq!(paths(&nodes), vec!["dir", "dir/b", "notes", "notes/a.txt"]);
}

#[test]
fn renaming_a_file_without_a_line_unlinks_nothing() {
    let mut db = loaded();
    db.toggle_collapse("dir");
    let mut session = Session { current_file: Some("dir/b".to_string()) };
    let mut nodes = build_file_tree(&db);
    assert_eq!(paths(&nodes), vec!["a", "dir"]);
    let done = handle_rename(&mut db, &mut session, &mut nodes, "c".to_string());
    assert_eq!(done.name, "c");
    assert_eq!(done.unlink, None);
    assert_eq!(keys(&db), vec!["a", "c"]);
    assert_eq!(db.get_contents("c", None), Err(ContentError::Unreadable));
}

#[test]
fn renaming_a_file_that_the_store_does_not_hold_moves_nothing() {
    let mut db = loaded();
    let mut session = Session { current_file: Some("ghost".to_string()) };
    let mut nodes = build_file_tree(&db);
    let done = handle_rename(&mut db, &mut session, &mut nodes, "real".to_string());
    assert_eq!(done.unlink, None);
    assert_eq!(keys(&db), vec!["a", "dir/b"]);
    assert_eq!(session.current_file, Some("real".to_string()));
}
