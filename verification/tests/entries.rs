use notestore::file_types::{FileType, ImageFile, TextFile};
use notestore::state::State;

fn text(content: Option<&str>, dirty: bool) -> TextFile {
    TextFile { path: "dir/a.txt".to_string(), content: content.map(|c| c.to_string()), dirty }
}

#[test]
fn a_text_describes_itself_with_its_content() {
    assert_eq!(text(Some("hello"), false).display(), "Displaying text file: Some(\"hello\")");
    assert_eq!(text(None, false).display(), "Displaying text file: None");
    assert_eq!(
        text(Some("a \"b\"\nc"), false).display(),
        "Displaying text file: Some(\"a \\\"b\\\"\\nc\")"
    );
    assert_eq!(FileType::Text(text(Some(""), true)).display(), "Displaying text file: Some(\"\")");
}

#[test]
fn an_image_describes_itself_with_its_path() {
    let image = ImageFile { path: "pics/cat.png".to_string(), dirty: false };
    assert_eq!(image.display(), "Displaying image file from path: pics/cat.png");
    assert_eq!(FileType::Image(image).display(), "Displaying image file from path: pics/cat.png");
}

#[test]
fn dirty_flags_are_set_and_read() {
    let mut t = text(Some("x"), false);
    assert!(!t.is_dirty());
    t.set_dirty(true);
    assert!(t.is_dirty());
    assert_eq!(t.content, Some("x".to_string()));
    let mut i = ImageFile { path: "p".to_string(), dirty: true };
    assert!(i.is_dirty());
    i.set_dirty(false);
    assert!(!i.is_dirty());
    assert_eq!(i.path, "p");
    let mut f = FileType::Text(text(None, false));
    f.set_dirty(true);
    assert!(f.is_dirty());
    f.set_dirty(false);
    assert!(!f.is_dirty());
    let mut g = FileType::Image(ImageFile { path: "p".to_string(), dirty: false });
    g.set_dirty(true);
    assert!(g.is_dirty());
}

#[test]
fn get_path_gives_the_backing_path() {
    assert_eq!(FileType::Text(text(None, false)).get_path(), "dir/a.txt");
    assert_eq!(FileType::Image(ImageFile { path: "p.png".to_string(), dirty: false }).get_path(), "p.png");
}

#[test]
fn a_content_in_memory_is_handed_out_as_it_is() {
    let mut t = text(Some("kept"), true);
    assert_eq!(t.get_contents(Some("from disk".to_string())), "kept");
    assert_eq!(t.get_contents(None), "kept");
    assert_eq!(t.content, Some("kept".to_string()));
    assert!(t.dirty);
}

#[test]
fn the_first_read_is_kept() {
    let mut t = text(None, false);
    assert_eq!(t.get_contents(Some("from disk".to_string())), "from disk");
    assert_eq!(t.content, Some("from disk".to_string()));
    assert!(!t.dirty);
    assert_eq!(t.get_contents(Some("later".to_string())), "from disk");
}

#[test]
fn a_failed_read_gives_the_placeholder_and_keeps_nothing() {
    let mut t = text(None, false);
    assert_eq!(t.get_contents(None), "???");
    assert_eq!(t.content, None);
    assert_eq!(t.path, "dir/a.txt");
}

#[test]
fn the_first_state_has_the_defaults() {
    let s = State::new();
    assert_eq!(s.data_dir, "cache");
    assert_eq!(s.theme, "Default");
    assert_eq!(s.background_image_path, None);
    assert_eq!(s.last_open_file, None);
}
