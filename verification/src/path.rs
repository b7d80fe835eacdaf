//! Keys as slash-separated paths: where their segments end, how a folder
//! path is found collapsed, and the clean form of a path typed by the user.

use crate::text::{text_of, to_chars};
use vstd::prelude::*;

verus! {

/// `p` is a place where a segment of `path` ends: at a slash, or at the end.
pub open spec fn is_boundary(path: Seq<char>, p: int) -> bool {
    0 <= p <= path.len() && (p == path.len() || path[p] == '/')
}

/// `path`, or one of the folders above it, is in `collapsed`: some prefix
/// of `path` that ends where a segment ends is a member.
pub open spec fn hides(collapsed: Set<Seq<char>>, path: Seq<char>) -> bool {
    exists|p: int| is_boundary(path, p) && collapsed.contains(#[trigger] path.take(p))
}

/// The key of the item `name` in the folder `prefix`; at the top there is no
/// prefix and the key is the name.
pub open spec fn child_key(prefix: Seq<char>, name: Seq<char>) -> Seq<char> {
    if prefix.len() == 0 {
        name
    } else {
        prefix + seq!['/'] + name
    }
}

/// The path on disk of the key `key` of a store rooted at `root`.
pub open spec fn disk_path(root: Seq<char>, key: Seq<char>) -> Seq<char> {
    root + seq!['/'] + key
}

/// The slash at `i` is one that the clean form leaves out: it stands at the
/// start, or behind another slash.
pub open spec fn is_extra_slash(path: Seq<char>, i: int) -> bool {
    0 <= i < path.len() && path[i] == '/' && (i == 0 || path[i - 1] == '/')
}

/// The clean form of the first `n` characters of `path`: every character but
/// the extra slashes, in order.
pub open spec fn cleaned(path: Seq<char>, n: int) -> Seq<char>
    decreases n,
{
    if n <= 0 {
        Seq::empty()
    } else if is_extra_slash(path, n - 1) {
        cleaned(path, n - 1)
    } else {
        cleaned(path, n - 1).push(path[n - 1])
    }
}

/// A path without extra slashes: none at the start, no two in a row.
pub open spec fn is_clean(path: Seq<char>) -> bool {
    forall|i: int| !is_extra_slash(path, i)
}

/// The clean form has no extra slash, and ends as the path does wherever the
/// path does not end in a slash.
pub proof fn lemma_cleaned_is_clean(path: Seq<char>, n: int)
    requires
        0 <= n <= path.len(),
    ensures
        is_clean(cleaned(path, n)),
        cleaned(path, n).len() <= n,
        n > 0 && path[n - 1] != '/' ==> cleaned(path, n).len() > 0 && cleaned(path, n).last()
            == path[n - 1],
    decreases n,
{
    if n > 0 {
        lemma_cleaned_is_clean(path, n - 1);
        let before = cleaned(path, n - 1);
        let after = cleaned(path, n);
        if !is_extra_slash(path, n - 1) {
            assert forall|i: int| !is_extra_slash(after, i) by {
                if 0 <= i < before.len() {
                    assert(is_extra_slash(after, i) == is_extra_slash(before, i));
                }
            }
        }
    }
}

/// A clean path is its own clean form.
pub proof fn lemma_cleaned_of_clean(path: Seq<char>, n: int)
    requires
        is_clean(path),
        0 <= n <= path.len(),
    ensures
        cleaned(path, n) == path.take(n),
    decreases n,
{
    if n > 0 {
        lemma_cleaned_of_clean(path, n - 1);
        assert(!is_extra_slash(path, n - 1));
        assert(path.take(n) == path.take(n - 1).push(path[n - 1]));
    } else {
        assert(path.take(n) == Seq::<char>::empty());
    }
}

/// The clean form of a path: the slashes at its start are dropped, and each
/// run of slashes becomes one. Cleaning a clean path changes nothing.
pub fn remove_invalid_dirs(path: String) -> (clean: String)
    ensures
        clean@ == cleaned(path@, path@.len() as int),
        is_clean(clean@),
        cleaned(clean@, clean@.len() as int) == clean@,
{
    let chars = to_chars(path.as_str());
    let mut kept: Vec<char> = Vec::new();
    let mut i: usize = 0;
    while i < chars.len()
        invariant
            i <= chars.len(),
            kept@ == cleaned(chars@, i as int),
        decreases chars.len() - i,
    {
        let extra = chars[i] == '/' && (i == 0 || chars[i - 1] == '/');
        if !extra {
            kept.push(chars[i]);
        }
        proof {
            lemma_cleaned_is_clean(chars@, i as int);
        }
        i += 1;
    }
    proof {
        lemma_cleaned_is_clean(chars@, chars@.len() as int);
        lemma_cleaned_of_clean(kept@, kept@.len() as int);
        assert(kept@.take(kept@.len() as int) == kept@);
    }
    text_of(&kept, 0, kept.len())
}

/// `path` lies below the folder `folder`: it begins with the path of the
/// folder and a slash.
pub open spec fn lies_below(path: Seq<char>, folder: Seq<char>) -> bool {
    &&& path.len() > folder.len()
    &&& path.take(folder.len() as int) == folder
    &&& path[folder.len() as int] == '/'
}

/// A collapsed folder hides itself.
pub proof fn lemma_member_hides(collapsed: Set<Seq<char>>, folder: Seq<char>)
    requires
        collapsed.contains(folder),
    ensures
        hides(collapsed, folder),
{
    assert(folder.take(folder.len() as int) == folder);
    assert(is_boundary(folder, folder.len() as int));
}

/// What a folder hides, it hides with everything below it.
pub proof fn lemma_hides_below(collapsed: Set<Seq<char>>, folder: Seq<char>, path: Seq<char>)
    requires
        hides(collapsed, folder),
        lies_below(path, folder),
    ensures
        hides(collapsed, path),
{
    let p = choose|p: int| is_boundary(folder, p) && collapsed.contains(#[trigger] folder.take(p));
    assert(path.take(p) == folder.take(p)) by {
        assert(path.take(folder.len() as int).take(p) == path.take(p));
    }
    assert(is_boundary(path, p)) by {
        if p < folder.len() {
            assert(path.take(folder.len() as int)[p] == path[p]);
        }
    }
}

/// The key of the item `name` in the folder `prefix`.
pub fn join_key(prefix: &str, name: &str) -> (key: String)
    ensures
        key@ == child_key(prefix@, name@),
{
    if prefix.is_empty() {
        String::from_str(name)
    } else {
        let mut key = String::from_str(prefix);
        key.push('/');
        key.append(name);
        key
    }
}

/// The path on disk of `key` under the directory `root`.
pub fn join_disk_path(root: &str, key: &str) -> (path: String)
    ensures
        path@ == disk_path(root@, key@),
{
    let mut path = String::from_str(root);
    path.push('/');
    path.append(key);
    path
}

} // verus!
