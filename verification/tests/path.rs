use notestore::path::{join_disk_path, join_key, remove_invalid_dirs};

fn clean(s: &str) -> String {
    remove_invalid_dirs(s.to_string())
}

#[test]
fn leading_slashes_are_dropped() {
    assert_eq!(clean("/a"), "a");
    assert_eq!(clean("///a/b"), "a/b");
    assert_eq!(clean("/"), "");
    assert_eq!(clean("////"), "");
}

#[test]
fn runs_of_slashes_become_one() {
    assert_eq!(clean("a//b"), "a/b");
    assert_eq!(clean("a///b////c"), "a/b/c");
    assert_eq!(clean("a//"), "a/");
    assert_eq!(clean("//a//b//"), "a/b/");
}

#[test]
fn clean_paths_stay_as_they_are() {
    for p in ["", "a", "a/b", "a/b/", "new file 1", "é/ü.txt", " / "] {
        assert_eq!(clean(p), p);
    }
}

#[test]
fn cleaning_twice_is_cleaning_once() {
    for p in ["//a///b", "/", "a//", "///", "x/y//z/"] {
        assert_eq!(clean(&clean(p)), clean(p));
    }
}

#[test]
fn keys_are_joined_with_a_slash_below_the_top() {
    assert_eq!(join_key("", "a.txt"), "a.txt");
    assert_eq!(join_key("dir", "a.txt"), "dir/a.txt");
    assert_eq!(join_key("dir/sub", "a.txt"), "dir/sub/a.txt");
    assert_eq!(join_key("dir", ""), "dir/");
}

#[test]
fn disk_paths_are_the_root_a_slash_and_the_key() {
    assert_eq!(join_disk_path("cache", "a.txt"), "cache/a.txt");
    assert_eq!(join_disk_path("/data/notes", "dir/a.txt"), "/data/notes/dir/a.txt");
    assert_eq!(join_disk_path("", "a"), "/a");
}
