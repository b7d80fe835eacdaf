//! Where a query is found in a text: as a plain substring, or as a pattern
//! handed to the `regex` crate.

use crate::offsets::{byte_offset, offset_of};
use crate::text::to_chars;
use vstd::prelude::*;

verus! {

/// The error of the `regex` crate for a pattern that it does not compile.
#[verifier::external_type_specification]
#[verifier::external_body]
pub struct ExRegexError(regex::Error);

/// Whether `regex::Regex::new` compiles `pattern`.
pub uninterp spec fn regex_compiles(pattern: Seq<char>) -> bool;

/// The byte offset in `text` at which the first match of `pattern` begins,
/// as `regex::Regex::find` reports it; `None` where nothing matches.
pub uninterp spec fn regex_match_start(pattern: Seq<char>, text: Seq<char>) -> Option<usize>;

/// What std's `str::to_lowercase` makes of `text`.
pub uninterp spec fn lowercase(text: Seq<char>) -> Seq<char>;

/// Compiles `pattern` with `regex::Regex::new` and searches `text` with
/// `Regex::find`. The contract names the two outcomes and claims nothing else
/// of them: an error exactly where the pattern does not compile, else the
/// start of the first match.
#[verifier::external_body]
fn regex_search(pattern: &str, text: &str) -> (r: Result<Option<usize>, regex::Error>)
    ensures
        r is Ok <==> regex_compiles(pattern@),
        r matches Ok(hit) ==> hit == regex_match_start(pattern@, text@),
{
    match regex::Regex::new(pattern) {
        Ok(re) => Ok(
            match re.find(text) {
                Some(m) => Some(m.start()),
                None => None,
            },
        ),
        Err(e) => Err(e),
    }
}

/// Folds `text` to lower case with std's `str::to_lowercase`. The contract
/// names the result and claims nothing else of it.
#[verifier::external_body]
pub(crate) fn to_lower(text: &str) -> (folded: String)
    ensures
        folded@ == lowercase(text@),
{
    text.to_lowercase()
}

/// `needle` stands in `text` from the character `k` on.
pub open spec fn occurs_at(needle: Seq<char>, text: Seq<char>, k: int) -> bool {
    &&& 0 <= k
    &&& k + needle.len() <= text.len()
    &&& text.subrange(k, k + needle.len()) == needle
}

/// `k` is the first place at which `needle` stands in `text`.
pub open spec fn is_first_occurrence(needle: Seq<char>, text: Seq<char>, k: int) -> bool {
    occurs_at(needle, text, k) && forall|j: int| 0 <= j < k ==> !occurs_at(needle, text, j)
}

/// The first place at which `needle` stands in `text`, if it does.
pub open spec fn first_occurrence(needle: Seq<char>, text: Seq<char>) -> Option<int> {
    if exists|k: int| occurs_at(needle, text, k) {
        Some(choose|k: int| is_first_occurrence(needle, text, k))
    } else {
        None
    }
}

/// The byte offset at which `needle` first stands in `text`, if it does.
pub open spec fn literal_match_start(needle: Seq<char>, text: Seq<char>) -> Option<int> {
    match first_occurrence(needle, text) {
        Some(k) => Some(byte_offset(text, k)),
        None => None,
    }
}

/// A byte offset as a mathematical integer.
pub open spec fn offset_view(at: Option<usize>) -> Option<int> {
    match at {
        Some(n) => Some(n as int),
        None => None,
    }
}

/// The byte offset at which a search for `terms` in `text` first succeeds.
/// A plain search looks for `terms` as a substring. A pattern search asks
/// the `regex` crate; a pattern that does not compile matches nothing.
pub open spec fn match_start(regex: bool, terms: Seq<char>, text: Seq<char>) -> Option<int> {
    if regex {
        regex_outcome(regex_compiles(terms), regex_match_start(terms, text))
    } else {
        literal_match_start(terms, text)
    }
}

/// What a pattern search finds, from what the `regex` crate answered.
pub open spec fn regex_outcome(compiles: bool, hit: Option<usize>) -> Option<int> {
    if compiles {
        offset_view(hit)
    } else {
        None
    }
}

/// A first occurrence is the one that [`first_occurrence`] names.
pub proof fn lemma_first_occurrence(needle: Seq<char>, text: Seq<char>, k: int)
    requires
        is_first_occurrence(needle, text, k),
    ensures
        first_occurrence(needle, text) == Some(k),
{
    let c = choose|c: int| is_first_occurrence(needle, text, c);
    assert(is_first_occurrence(needle, text, c));
    if c < k {
        assert(!occurs_at(needle, text, c));
    }
    if k < c {
        assert(!occurs_at(needle, text, k));
    }
}

/// Whether `needle` stands in `text` from the character `k` on.
fn stands_at(needle: &Vec<char>, text: &Vec<char>, k: usize) -> (r: bool)
    requires
        k + needle.len() <= text.len(),
    ensures
        r == occurs_at(needle@, text@, k as int),
{
    let mut i: usize = 0;
    while i < needle.len()
        invariant
            i <= needle.len(),
            k + needle.len() <= text.len(),
            text@.subrange(k as int, k + i) == needle@.take(i as int),
        decreases needle.len() - i,
    {
        if text[k + i] != needle[i] {
            assert(text@.subrange(k as int, k + needle.len())[i as int] != needle@[i as int]);
            return false;
        }
        assert(text@.subrange(k as int, k + i + 1) == text@.subrange(k as int, k + i).push(
            text@[k + i],
        ));
        assert(needle@.take(i + 1) == needle@.take(i as int).push(needle@[i as int]));
        i += 1;
    }
    assert(needle@.take(needle@.len() as int) == needle@);
    true
}

/// The first place at which `needle` stands in `text`, in characters.
pub fn find_chars(needle: &Vec<char>, text: &Vec<char>) -> (at: Option<usize>)
    ensures
        offset_view(at) == first_occurrence(needle@, text@),
        at matches Some(k) ==> k + needle.len() <= text.len(),
{
    if needle.len() > text.len() {
        return None;
    }
    let last: usize = text.len() - needle.len();
    let mut k: usize = 0;
    loop
        invariant
            last == text.len() - needle.len(),
            k <= last,
            forall|j: int| 0 <= j < k ==> !occurs_at(needle@, text@, j),
        decreases last - k,
    {
        if stands_at(needle, text, k) {
            proof {
                lemma_first_occurrence(needle@, text@, k as int);
            }
            return Some(k);
        }
        if k == last {
            return None;
        }
        k += 1;
    }
}

/// Where a plain search for `terms` in `text` first succeeds, as a byte
/// offset.
pub fn find_literal(terms: &str, text: &str) -> (at: Option<usize>)
    ensures
        offset_view(at) == literal_match_start(terms@, text@),
{
    let needle = to_chars(terms);
    let hay = to_chars(text);
    match find_chars(&needle, &hay) {
        Some(k) => Some(offset_of(text, k)),
        None => None,
    }
}

/// What a pattern search finds, from what the `regex` crate answered: the
/// start that it reported, and nothing where the pattern did not compile.
pub fn regex_hit(answer: Result<Option<usize>, regex::Error>) -> (at: Option<usize>)
    ensures
        offset_view(at) == regex_outcome(
            answer is Ok,
            match answer {
                Ok(hit) => hit,
                Err(_) => None,
            },
        ),
{
    match answer {
        Ok(hit) => hit,
        Err(_) => None,
    }
}

/// Where a search for `terms` in `text` first succeeds, as a byte offset.
pub fn find(regex: bool, terms: &str, text: &str) -> (at: Option<usize>)
    ensures
        offset_view(at) == match_start(regex, terms@, text@),
{
    if !regex {
        return find_literal(terms, text);
    }
    regex_hit(regex_search(terms, text))
}

} // verus!
