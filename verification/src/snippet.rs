//! The one-line excerpt shown for a match in a content.

use crate::text::text_of;
use vstd::prelude::*;

verus! {

/// The number of characters shown on each side of a match.
pub const CONTEXT: usize = 8;

/// The mark for text that an excerpt leaves out.
pub open spec fn ellipsis() -> Seq<char> {
    seq!['.', '.', '.']
}

/// What stands for the character `c` in an excerpt: a line feed is shown as
/// a backslash and the letter n, any other character as itself.
pub open spec fn shown_char(c: char) -> Seq<char> {
    if c == '\n' {
        seq!['\\', 'n']
    } else {
        seq![c]
    }
}

/// `text` with each line feed made visible, so that it fits on one line.
pub open spec fn escaped(text: Seq<char>) -> Seq<char>
    decreases text.len(),
{
    if text.len() == 0 {
        Seq::empty()
    } else {
        escaped(text.drop_last()) + shown_char(text.last())
    }
}

/// Where the excerpt for a match of `len` characters at the character `at`
/// begins: `CONTEXT` characters before the match, or at the start.
pub open spec fn window_start(at: int) -> int {
    if at > CONTEXT {
        at - CONTEXT
    } else {
        0
    }
}

/// Where that excerpt ends: `CONTEXT` characters behind the match, or at the
/// end of the text.
pub open spec fn window_end(text: Seq<char>, at: int, len: int) -> int {
    if at + len + CONTEXT < text.len() {
        at + len + CONTEXT
    } else {
        text.len() as int
    }
}

/// The excerpt of `text` for a match of `len` characters at the character
/// `at`: the window round the match with its line feeds made visible,
/// behind an ellipsis if the window begins after the start of the text, and
/// before one if it ends ahead of the end.
pub open spec fn snippet(text: Seq<char>, at: int, len: int) -> Seq<char> {
    let from = window_start(at);
    let to = window_end(text, at, len);
    let head = if from > 0 {
        ellipsis()
    } else {
        Seq::empty()
    };
    let tail = if to < text.len() {
        ellipsis()
    } else {
        Seq::empty()
    };
    head + escaped(text.subrange(from, to)) + tail
}

/// Appends the three dots of an ellipsis.
fn push_ellipsis(out: &mut Vec<char>)
    ensures
        final(out)@ == old(out)@ + ellipsis(),
{
    out.push('.');
    out.push('.');
    out.push('.');
    assert(out@ =~= old(out)@ + ellipsis());
}

/// The excerpt of `text` for a match of `len` characters at the character
/// `at`.
pub fn make_snippet(text: &Vec<char>, at: usize, len: usize) -> (line: String)
    requires
        at <= text.len(),
    ensures
        line@ == snippet(text@, at as int, len as int),
{
    let from: usize = if at > CONTEXT {
        at - CONTEXT
    } else {
        0
    };
    let room: usize = text.len() - at;
    let to: usize = if len >= room || room - len <= CONTEXT {
        text.len()
    } else {
        at + len + CONTEXT
    };
    assert(from == window_start(at as int));
    assert(to == window_end(text@, at as int, len as int));
    let mut out: Vec<char> = Vec::new();
    if from > 0 {
        push_ellipsis(&mut out);
    }
    let ghost head = out@;
    let mut i: usize = from;
    assert(text@.subrange(from as int, from as int) == Seq::<char>::empty());
    while i < to
        invariant
            from <= i <= to <= text.len(),
            out@ == head + escaped(text@.subrange(from as int, i as int)),
        decreases to - i,
    {
        let c = text[i];
        proof {
            let part = text@.subrange(from as int, i as int);
            let next = text@.subrange(from as int, i + 1);
            assert(next.drop_last() == part);
            assert(next.last() == c);
            assert(escaped(next) == escaped(part) + shown_char(c));
        }
        if c == '\n' {
            out.push('\\');
            out.push('n');
        } else {
            out.push(c);
        }
        assert(out@ =~= head + (escaped(text@.subrange(from as int, i as int)) + shown_char(c)));
        i += 1;
    }
    if to < text.len() {
        push_ellipsis(&mut out);
    }
    assert(out@ =~= snippet(text@, at as int, len as int));
    assert(out@.subrange(0, out@.len() as int) == out@);
    text_of(&out, 0, out.len())
}

} // verus!
