//! Text as sequences of characters: conversions between `&str`, `String`
//! and `Vec<char>`, comparison, and what counts as blank.

use vstd::prelude::*;

verus! {

/// std's `String::push`: the character is appended at the end.
pub assume_specification[ String::push ](s: &mut String, c: char)
    ensures
        final(s)@ == old(s)@.push(c),
;

/// The characters of `s`, in order.
pub fn to_chars(s: &str) -> (v: Vec<char>)
    ensures
        v@ == s@,
{
    let mut v: Vec<char> = Vec::new();
    for c in it: s.chars()
        invariant
            v@ == it.seq().take(it.index()),
            it.seq() == s@,
    {
        v.push(c);
    }
    v
}

/// The text made of `v[from..to]`.
pub fn text_of(v: &Vec<char>, from: usize, to: usize) -> (s: String)
    requires
        from <= to <= v.len(),
    ensures
        s@ == v@.subrange(from as int, to as int),
{
    let mut s = String::new();
    let mut i: usize = from;
    while i < to
        invariant
            from <= i <= to <= v.len(),
            s@ == v@.subrange(from as int, i as int),
        decreases to - i,
    {
        s.push(v[i]);
        i += 1;
    }
    s
}

/// Whether `a[..n]` and `b` hold the same characters.
pub fn prefix_is(a: &Vec<char>, n: usize, b: &Vec<char>) -> (r: bool)
    requires
        n <= a.len(),
    ensures
        r == (a@.take(n as int) == b@),
{
    if b.len() != n {
        return false;
    }
    let mut i: usize = 0;
    while i < n
        invariant
            i <= n <= a.len(),
            b.len() == n,
            a@.take(i as int) == b@.take(i as int),
        decreases n - i,
    {
        if a[i] != b[i] {
            assert(a@.take(n as int)[i as int] != b@[i as int]);
            return false;
        }
        assert(a@.take(i + 1) == a@.take(i as int).push(a@[i as int]));
        assert(b@.take(i + 1) == b@.take(i as int).push(b@[i as int]));
        i += 1;
    }
    assert(b@.take(n as int) == b@);
    true
}

/// Whether `c` is white space as std's `char::is_whitespace` has it: a
/// character with the Unicode property `White_Space`.
pub uninterp spec fn is_white_space(c: char) -> bool;

/// std's `char::is_whitespace`. The contract names the result and claims
/// nothing else of it.
pub assume_specification[ char::is_whitespace ](c: char) -> (b: bool)
    ensures
        b == is_white_space(c),
;

/// A text without a visible character: empty, or white space only.
pub open spec fn is_blank(text: Seq<char>) -> bool {
    forall|i: int| 0 <= i < text.len() ==> is_white_space(#[trigger] text[i])
}

/// Whether `chars[..n]` is blank.
pub fn blank_prefix(chars: &Vec<char>, n: usize) -> (blank: bool)
    requires
        n <= chars.len(),
    ensures
        blank == is_blank(chars@.take(n as int)),
{
    let mut i: usize = 0;
    while i < n
        invariant
            i <= n <= chars.len(),
            forall|j: int| 0 <= j < i ==> is_white_space(#[trigger] chars@.take(n as int)[j]),
        decreases n - i,
    {
        if !chars[i].is_whitespace() {
            assert(!is_white_space(chars@.take(n as int)[i as int]));
            return false;
        }
        i += 1;
    }
    true
}

} // verus!
