use notestore::cache::Database;
use notestore::file_types::{FileType, ImageFile};
use notestore::listing::Listed;
use notestore::matching::{find, find_chars, find_literal, regex_hit};
use notestore::search::{content_result, name_result, on_search, SearchResult};
use notestore::snippet::make_snippet;

fn store(entries: &[(&str, &str)]) -> Database {
    let mut db = Database::new("root");
    for (k, v) in entries {
        db.insert(k.to_string(), v.to_string());
    }
    db
}

fn chars(s: &str) -> Vec<char> {
    s.chars().collect()
}

fn summary(list: &[SearchResult]) -> Vec<(String, String, bool, bool, usize, usize)> {
    list.iter()
        .map(|r| (r.file_path.clone(), r.line_matched.clone(), r.match_name, r.selected, r.start, r.end))
        .collect()
}

fn row(key: &str, line: &str, name: bool, selected: bool, start: usize, end: usize) -> (String, String, bool, bool, usize, usize) {
    (key.to_string(), line.to_string(), name, selected, start, end)
}

#[test]
fn snippet_of_a_match_with_eight_characters_on_each_side() {
    let db = store(&[("note", "xxxxxxxxhelloxxxxxxxx")]);
    let list = on_search(false, true, true, false, "hello", &db).unwrap();
    assert_eq!(summary(&list), vec![row("note", "xxxxxxxxhelloxxxxxxxx", false, true, 8, 13)]);
}

#[test]
fn snippet_gets_ellipses_where_the_text_goes_on() {
    let db = store(&[("note", "abcxxxxxxxxhelloyyyyyyyydef")]);
    let list = on_search(false, true, true, false, "hello", &db).unwrap();
    assert_eq!(summary(&list), vec![row("note", "...xxxxxxxxhelloyyyyyyyy...", false, true, 11, 16)]);
}

#[test]
fn snippet_window_is_clamped_to_the_text() {
    assert_eq!(make_snippet(&chars("hello"), 0, 5), "hello");
    assert_eq!(make_snippet(&chars("hello world, hello moon"), 0, 5), "hello world, ...");
    assert_eq!(make_snippet(&chars("0123456789hello"), 10, 5), "...23456789hello");
    assert_eq!(make_snippet(&chars("012345678hello"), 9, 5), "...12345678hello");
    assert_eq!(make_snippet(&chars("01234567hello"), 8, 5), "01234567hello");
    assert_eq!(make_snippet(&chars("hello01234567"), 0, 5), "hello01234567");
    assert_eq!(make_snippet(&chars("hello012345678"), 0, 5), "hello01234567...");
    assert_eq!(make_snippet(&chars("abc"), 3, 100), "abc");
    assert_eq!(make_snippet(&chars(""), 0, 0), "");
}

#[test]
fn snippet_shows_line_feeds_as_backslash_n() {
    assert_eq!(make_snippet(&chars("one\ntwo\nthree"), 4, 3), "one\\ntwo\\nthree");
    assert_eq!(
        make_snippet(&chars("a long first line\nhit\nand a long last line"), 18, 3),
        "...st line\\nhit\\nand a l..."
    );
}

#[test]
fn snippet_counts_characters_not_bytes() {
    let db = store(&[("note", "ééééééééééhelloüüüüüüüüüü")]);
    let list = on_search(false, true, true, false, "hello", &db).unwrap();
    assert_eq!(summary(&list), vec![row("note", "...ééééééééhelloüüüüüüüü...", false, true, 20, 25)]);
}

#[test]
fn offsets_are_in_bytes() {
    assert_eq!(find(false, "b", "äb"), Some(2));
    assert_eq!(find(false, "€", "a€"), Some(1));
    assert_eq!(find(false, "x", "a€😀x"), Some(8));
    let r = content_result("k", "a€😀x€", "€", 8, false);
    assert_eq!((r.start, r.end), (8, 11));
    assert_eq!(r.line_matched, "a€😀x€");
}

#[test]
fn content_result_takes_the_window_at_the_character_of_the_offset() {
    let r = content_result("key", "0123456789abcdefghijklmnopqrstuvwxyz", "abc", 10, true);
    assert_eq!(r.file_path, "key");
    assert_eq!(r.line_matched, "...23456789abcdefghijk...");
    assert!(r.selected && r.match_contents && !r.match_name);
    assert_eq!((r.start, r.end), (10, 13));
    let r = content_result("key", "ab", "abcdef", 1000, false);
    assert_eq!(r.line_matched, "ab");
    assert_eq!((r.start, r.end), (1000, 1006));
    let r = content_result("key", "ab", "abc", usize::MAX - 1, false);
    assert_eq!((r.start, r.end), (usize::MAX - 1, usize::MAX));
}

#[test]
fn name_result_has_no_excerpt() {
    let r = name_result("dir/key", true);
    assert_eq!(r.file_path, "dir/key");
    assert_eq!(r.line_matched, "");
    assert!(r.selected && r.match_name && !r.match_contents);
    assert_eq!((r.start, r.end), (0, 0));
}

#[test]
fn find_gives_the_first_occurrence() {
    assert_eq!(find(false, "ab", "xxabxxab"), Some(2));
    assert_eq!(find(false, "ab", "ab"), Some(0));
    assert_eq!(find(false, "ab", "a"), None);
    assert_eq!(find(false, "ab", "ba"), None);
    assert_eq!(find(false, "", "abc"), Some(0));
    assert_eq!(find(false, "", ""), Some(0));
    assert_eq!(find(false, "aab", "aaab"), Some(1));
    assert_eq!(find(false, "a.c", "abc a.c"), Some(4));
    assert_eq!(find_literal("needle", "hay needle hay"), Some(4));
    assert_eq!(find_chars(&chars("é"), &chars("aéé")), Some(1));
    assert_eq!(find_chars(&chars("abc"), &chars("ab")), None);
}

#[test]
fn find_with_a_pattern_asks_the_regex_crate() {
    assert_eq!(find(true, "a.c", "abc a.c"), Some(0));
    assert_eq!(find(true, "[0-9]+", "abc 123"), Some(4));
    assert_eq!(find(true, "^b", "abc"), None);
    assert_eq!(find(true, "é+", "aéé"), Some(1));
    assert_eq!(find(true, "x*", "abc"), Some(0));
}

#[test]
fn a_pattern_that_does_not_compile_matches_nothing() {
    assert_eq!(find(true, "(", "a(b"), None);
    assert_eq!(find(true, "[a", "[a"), None);
    assert_eq!(find(false, "(", "a(b"), Some(1));
    let db = store(&[("(", "text with ( in it")]);
    assert!(on_search(true, true, true, true, "(", &db).unwrap().is_empty());
}

#[test]
fn regex_hit_maps_the_answer_of_the_crate() {
    assert_eq!(regex_hit(Ok(Some(3))), Some(3));
    assert_eq!(regex_hit(Ok(None)), None);
    let bad = regex::Regex::new("(").unwrap_err();
    assert_eq!(regex_hit(Err(bad)), None);
}

#[test]
fn an_empty_query_searches_nothing() {
    let db = store(&[("a", "text")]);
    assert!(on_search(true, true, true, false, "", &db).is_none());
    assert!(on_search(true, true, false, true, "", &db).is_none());
}

#[test]
fn a_key_can_give_two_results_content_first() {
    let db = store(&[("alpha", "about alpha and beta"), ("beta", "nothing here"), ("gamma", "alpha")]);
    let list = on_search(true, true, true, false, "alpha", &db).unwrap();
    assert_eq!(
        summary(&list),
        vec![
            row("alpha", "about alpha and bet...", false, true, 6, 11),
            row("alpha", "", true, false, 0, 0),
            row("gamma", "alpha", false, false, 0, 5),
        ]
    );
    assert!(list[0].match_contents && !list[0].match_name);
    assert!(list[1].match_name && !list[1].match_contents);
}

#[test]
fn only_the_first_result_is_selected() {
    let db = store(&[("a", "x"), ("b", "x"), ("c", "x"), ("x", "")]);
    let list = on_search(true, true, true, false, "x", &db).unwrap();
    assert_eq!(list.len(), 4);
    let flags: Vec<bool> = list.iter().map(|r| r.selected).collect();
    assert_eq!(flags, vec![true, false, false, false]);
    let list = on_search(true, false, true, false, "x", &db).unwrap();
    assert_eq!(summary(&list), vec![row("x", "", true, true, 0, 0)]);
}

#[test]
fn results_follow_the_order_of_the_keys() {
    let db = store(&[("c", "hit"), ("a", "hit"), ("b", "miss"), ("B", "hit")]);
    let list = on_search(false, true, true, false, "hit", &db).unwrap();
    let keys: Vec<&str> = list.iter().map(|r| r.file_path.as_str()).collect();
    assert_eq!(keys, vec!["B", "a", "c"]);
}

#[test]
fn without_match_case_query_and_content_are_folded() {
    let db = store(&[("Note", "Say HeLLo There")]);
    assert!(on_search(false, true, true, false, "hello", &db).unwrap().is_empty());
    let list = on_search(false, true, false, false, "HELLO", &db).unwrap();
    assert_eq!(summary(&list), vec![row("Note", "say hello there", false, true, 4, 9)]);
}

#[test]
fn keys_are_compared_as_they_are() {
    let db = store(&[("Note", ""), ("note", "")]);
    let list = on_search(true, false, false, false, "NOTE", &db).unwrap();
    assert_eq!(summary(&list), vec![row("note", "", true, true, 0, 0)]);
    let list = on_search(true, false, true, false, "Note", &db).unwrap();
    assert_eq!(summary(&list), vec![row("Note", "", true, true, 0, 0)]);
}

#[test]
fn a_pattern_search_reports_the_start_of_the_match() {
    let db = store(&[("log", "line one\nerror 42 here\nline three")]);
    let list = on_search(false, true, true, true, "[0-9]+", &db).unwrap();
    assert_eq!(summary(&list), vec![row("log", "...e\\nerror 42 here\\nline t...", false, true, 15, 21)]);
}

#[test]
fn an_unread_text_is_searched_as_the_placeholder() {
    let mut db = Database::new("root");
    db.load(Some(vec![Listed::File { name: "a".to_string(), path: "/root/a".to_string() }])).unwrap();
    assert!(on_search(false, true, true, false, "text", &db).unwrap().is_empty());
    let list = on_search(false, true, true, false, "?", &db).unwrap();
    assert_eq!(summary(&list), vec![row("a", "???", false, true, 0, 1)]);
    db.get_contents("a", Some("the text".to_string())).unwrap();
    let list = on_search(false, true, true, false, "text", &db).unwrap();
    assert_eq!(summary(&list), vec![row("a", "the text", false, true, 4, 8)]);
}

#[test]
fn an_image_has_no_text_to_search() {
    let mut db = store(&[("pic", "old text")]);
    *db.get_file("pic").unwrap() = FileType::Image(ImageFile { path: "pic.png".to_string(), dirty: false });
    assert!(on_search(false, true, true, false, "text", &db).unwrap().is_empty());
    let list = on_search(true, true, true, false, "pic", &db).unwrap();
    assert_eq!(summary(&list), vec![row("pic", "", true, true, 0, 0)]);
}
