use notestore::cache::{ContentError, Database};
use notestore::listing::Listed;
use notestore::session::Session;
use notestore::state::State;
use notestore::tree::{build_file_tree, mark_open, TreeNode};

fn open_flags(nodes: &[TreeNode]) -> Vec<(String, bool)> {
    nodes.iter().map(|n| (n.full_path.clone(), n.open)).collect()
}

fn flag(path: &str, open: bool) -> (String, bool) {
    (path.to_string(), open)
}

fn loaded() -> Database {
    let mut db = Database::new("/data");
    let listing = vec![
        Listed::File { name: "a".to_string(), path: "/data/a".to_string() },
        Listed::Folder {
            name: "dir".to_string(),
            items: Some(vec![Listed::File { name: "b".to_string(), path: "/data/dir/b".to_string() }]),
        },
    ];
    db.load(Some(listing)).unwrap();
    db
}

#[test]
fn a_new_session_has_no_open_file() {
    assert_eq!(Session::new().current_file, None);
}

#[test]
fn mark_open_marks_the_node_of_the_path_and_no_other() {
    let db = loaded();
    let mut nodes = build_file_tree(&db);
    mark_open(&mut nodes, "dir/b");
    assert_eq!(open_flags(&nodes), vec![flag("a", false), flag("dir", false), flag("dir/b", true)]);
    mark_open(&mut nodes, "a");
    assert_eq!(open_flags(&nodes), vec![flag("a", true), flag("dir", false), flag("dir/b", false)]);
    mark_open(&mut nodes, "missing");
    assert_eq!(open_flags(&nodes), vec![flag("a", false), flag("dir", false), flag("dir/b", false)]);
    assert_eq!(nodes[2].name, "b");
    assert_eq!(nodes[2].ident, 1);
    assert_eq!(nodes[2].index, 2);
}

#[test]
fn opening_a_file_reads_it_and_remembers_it() {
    let mut db = loaded();
    let mut state = State::new();
    let mut session = Session::new();
    let mut nodes = build_file_tree(&db);
    let shown = session.open_file(
        &mut db,
        &mut state,
        &mut nodes,
        "text in the editor".to_string(),
        Some("dir/b".to_string()),
        Some("content of b".to_string()),
    );
    assert_eq!(shown, Some(Ok("content of b".to_string())));
    assert_eq!(session.current_file, Some("dir/b".to_string()));
    assert_eq!(state.last_open_file, Some("dir/b".to_string()));
    assert_eq!(state.data_dir, "cache");
    assert_eq!(open_flags(&nodes), vec![flag("a", false), flag("dir", false), flag("dir/b", true)]);
    assert!(db.save_all().is_empty());
    assert_eq!(db.len(), 2);
}

#[test]
fn opening_another_file_puts_the_editor_text_back_first() {
    let mut db = loaded();
    let mut state = State::new();
    let mut session = Session { current_file: Some("a".to_string()) };
    let mut nodes = build_file_tree(&db);
    let shown = session.open_file(
        &mut db,
        &mut state,
        &mut nodes,
        "edited a".to_string(),
        Some("dir/b".to_string()),
        None,
    );
    assert_eq!(shown, Some(Err(ContentError::Unreadable)));
    assert_eq!(session.current_file, Some("dir/b".to_string()));
    let writes = db.save_all();
    assert_eq!(writes.len(), 1);
    assert_eq!(writes[0].key, "a");
    assert_eq!(writes[0].path, "/data/a");
    assert_eq!(writes[0].content, Some("edited a".to_string()));
}

#[test]
fn opening_the_open_file_again_shows_the_editor_text() {
    let mut db = loaded();
    let mut state = State::new();
    let mut session = Session { current_file: Some("a".to_string()) };
    let mut nodes = build_file_tree(&db);
    let shown = session.open_file(
        &mut db,
        &mut state,
        &mut nodes,
        "edited a".to_string(),
        Some("a".to_string()),
        Some("stale text from disk".to_string()),
    );
    assert_eq!(shown, Some(Ok("edited a".to_string())));
}

#[test]
fn opening_a_missing_file_is_not_found_but_becomes_the_open_file() {
    let mut db = loaded();
    let mut state = State::new();
    let mut session = Session::new();
    let mut nodes = build_file_tree(&db);
    let shown = session.open_file(&mut db, &mut state, &mut nodes, String::new(), Some("zzz".to_string()), None);
    assert_eq!(shown, Some(Err(ContentError::NotFound)));
    assert_eq!(session.current_file, Some("zzz".to_string()));
    assert_eq!(state.last_open_file, Some("zzz".to_string()));
    assert!(!db.contains("zzz"));
}

#[test]
fn closing_puts_the_editor_text_back_and_opens_nothing() {
    let mut db = loaded();
    let mut state = State::new();
    state.last_open_file = Some("a".to_string());
    let mut session = Session { current_file: Some("new file".to_string()) };
    let mut nodes = build_file_tree(&db);
    mark_open(&mut nodes, "a");
    let shown = session.open_file(&mut db, &mut state, &mut nodes, "typed".to_string(), None, None);
    assert_eq!(shown, None);
    assert_eq!(session.current_file, None);
    assert_eq!(state.last_open_file, Some("a".to_string()));
    assert!(db.contains("new file"));
    assert_eq!(db.get_contents("new file", None), Ok("typed".to_string()));
    assert_eq!(open_flags(&nodes), vec![flag("a", true), flag("dir", false), flag("dir/b", false)]);
}

#[test]
fn flush_without_an_open_file_changes_nothing() {
    let mut db = loaded();
    Session::new().flush(&mut db, "typed".to_string());
    assert_eq!(db.len(), 2);
    assert!(db.save_all().is_empty());
    let session = Session { current_file: Some("dir/b".to_string()) };
    session.flush(&mut db, "typed".to_string());
    assert_eq!(db.get_contents("dir/b", None), Ok("typed".to_string()));
    assert_eq!(db.save_all().len(), 1);
}

#[test]
fn open_and_close_are_the_two_halves_of_open_file() {
    let mut db = loaded();
    let mut state = State::new();
    let mut session = Session::new();
    let mut nodes = build_file_tree(&db);
    let answer = session.open(&mut db, &mut state, &mut nodes, String::new(), "a".to_string(), Some("text".to_string()));
    assert_eq!(answer, Ok("text".to_string()));
    assert_eq!(session.current_file, Some("a".to_string()));
    assert_eq!(open_flags(&nodes), vec![flag("a", true), flag("dir", false), flag("dir/b", false)]);
    session.close(&mut db, "edited".to_string());
    assert_eq!(session.current_file, None);
    assert_eq!(db.get_contents("a", None), Ok("edited".to_string()));
    assert_eq!(db.save_all().len(), 1);
    session.close(&mut db, "ignored".to_string());
    assert_eq!(db.get_contents("a", None), Ok("edited".to_string()));
}
