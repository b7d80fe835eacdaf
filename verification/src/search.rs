//! The linear search over the keys and contents of a store, and the cursor
//! that moves through its results.

use crate::cache::{Database, DatabaseView};
use crate::file_types::{placeholder, FileType, FileView};
use crate::matching::{find, lowercase, match_start, to_lower};
use crate::offsets::{byte_len, char_index, index_at};
use crate::snippet::{make_snippet, snippet};
use crate::text::to_chars;
use vstd::prelude::*;

verus! {

/// One match of a query.
#[derive(Debug, PartialEq, Eq)]
pub struct SearchResult {
    /// The key of the entry that matched.
    pub file_path: String,
    /// The excerpt round a match in the content; empty for a match in the
    /// name.
    pub line_matched: String,
    pub match_name: bool,
    pub match_contents: bool,
    /// Whether the cursor is on this result.
    pub selected: bool,
    /// The byte offset in the searched content at which the match begins.
    pub start: usize,
    /// `start` and the length of the query in bytes, added up.
    pub end: usize,
}

/// What a [`SearchResult`] holds, as plain values.
pub ghost struct SearchResultView {
    pub file_path: Seq<char>,
    pub line_matched: Seq<char>,
    pub match_name: bool,
    pub match_contents: bool,
    pub selected: bool,
    pub start: int,
    pub end: int,
}

impl View for SearchResult {
    type V = SearchResultView;

    open spec fn view(&self) -> SearchResultView {
        SearchResultView {
            file_path: self.file_path@,
            line_matched: self.line_matched@,
            match_name: self.match_name,
            match_contents: self.match_contents,
            selected: self.selected,
            start: self.start as int,
            end: self.end as int,
        }
    }
}

/// The views of a list of results.
pub open spec fn result_views(list: Seq<SearchResult>) -> Seq<SearchResultView> {
    Seq::new(list.len(), |i: int| list[i]@)
}

/// What a search looks at, and how.
#[derive(Clone, Copy, Debug, PartialEq, Eq, Structural)]
pub struct SearchFlags {
    /// Look in the keys.
    pub match_name: bool,
    /// Look in the contents.
    pub match_contents: bool,
    /// Take upper and lower case as different.
    pub match_case: bool,
    /// Take the query as a pattern.
    pub regex: bool,
}

/// The text of an entry that a search looks at: the content of a text, the
/// placeholder where that content is not in memory, nothing for an image.
pub open spec fn searched_text(entry: FileView) -> Seq<char> {
    match entry {
        FileView::Text(file) => match file.content {
            Some(text) => text,
            None => placeholder(),
        },
        FileView::Image(_) => Seq::empty(),
    }
}

/// `text` as the search compares it: as it is, or folded to lower case.
pub open spec fn folded(match_case: bool, text: Seq<char>) -> Seq<char> {
    if match_case {
        text
    } else {
        lowercase(text)
    }
}

/// `start` and the length of `terms` in bytes, added up; the largest
/// `usize` where the sum does not fit.
pub open spec fn match_end(start: int, terms: Seq<char>) -> int {
    if start + byte_len(terms) <= usize::MAX {
        start + byte_len(terms)
    } else {
        usize::MAX as int
    }
}

/// The unselected result for a match of `terms` in the content `text` of
/// the entry `key`, at the byte offset `start`.
pub open spec fn content_hit(
    key: Seq<char>,
    text: Seq<char>,
    terms: Seq<char>,
    start: int,
) -> SearchResultView {
    SearchResultView {
        file_path: key,
        line_matched: snippet(text, char_index(text, start), terms.len() as int),
        match_name: false,
        match_contents: true,
        selected: false,
        start,
        end: match_end(start, terms),
    }
}

/// The unselected result for a match in the key `key`.
pub open spec fn name_hit(key: Seq<char>) -> SearchResultView {
    SearchResultView {
        file_path: key,
        line_matched: Seq::empty(),
        match_name: true,
        match_contents: false,
        selected: false,
        start: 0,
        end: 0,
    }
}

/// The results that one entry gives for the folded query `terms`: one for
/// its content, then one for its key, each if asked for and found.
pub open spec fn entry_hits(
    flags: SearchFlags,
    terms: Seq<char>,
    key: Seq<char>,
    entry: FileView,
) -> Seq<SearchResultView> {
    let text = folded(flags.match_case, searched_text(entry));
    let in_content = if flags.match_contents {
        match match_start(flags.regex, terms, text) {
            Some(start) => seq![content_hit(key, text, terms, start)],
            None => Seq::empty(),
        }
    } else {
        Seq::empty()
    };
    let in_name = if flags.match_name && match_start(flags.regex, terms, key) is Some {
        seq![name_hit(key)]
    } else {
        Seq::empty()
    };
    in_content + in_name
}

/// The results of the first `n` entries of the store, in the order of the
/// keys.
pub open spec fn hits_upto(store: DatabaseView, flags: SearchFlags, terms: Seq<char>, n: nat) -> Seq<
    SearchResultView,
>
    decreases n,
{
    if n == 0 || n > store.order.len() {
        Seq::empty()
    } else {
        let key = store.order[n - 1];
        hits_upto(store, flags, terms, (n - 1) as nat) + entry_hits(
            flags,
            terms,
            key,
            store.entries[key],
        )
    }
}

/// `hits` with the cursor on the first of them.
pub open spec fn first_selected(hits: Seq<SearchResultView>) -> Seq<SearchResultView> {
    Seq::new(hits.len(), |i: int| SearchResultView { selected: i == 0, ..hits[i] })
}

/// The results of a search for `terms` in the store.
pub open spec fn search_results(store: DatabaseView, flags: SearchFlags, terms: Seq<char>) -> Seq<
    SearchResultView,
> {
    first_selected(hits_upto(store, flags, folded(flags.match_case, terms), store.order.len()))
}

/// Every result of a search belongs to a key of the store and is either a
/// match in the name or a match in the content; a key gives two results at
/// most.
pub proof fn lemma_hits_are_keys(store: DatabaseView, flags: SearchFlags, terms: Seq<char>, n: nat)
    requires
        n <= store.order.len(),
    ensures
        hits_upto(store, flags, terms, n).len() <= 2 * n,
        forall|i: int|
            0 <= i < hits_upto(store, flags, terms, n).len() ==> {
                let hit = #[trigger] hits_upto(store, flags, terms, n)[i];
                &&& store.order.contains(hit.file_path)
                &&& hit.match_name != hit.match_contents
                &&& !hit.selected
            },
    decreases n,
{
    if n > 0 {
        lemma_hits_are_keys(store, flags, terms, (n - 1) as nat);
        let key = store.order[n - 1];
        assert(store.order.contains(key));
    }
}

/// A result list that shows `hits` shows `hits` and one more once the next
/// hit is pushed, selected if it is the first.
proof fn lemma_push_hit(
    list: Seq<SearchResult>,
    hits: Seq<SearchResultView>,
    next: SearchResult,
    hit: SearchResultView,
)
    requires
        result_views(list) == first_selected(hits),
        next@ == (SearchResultView { selected: list.len() == 0, ..hit }),
    ensures
        result_views(list.push(next)) == first_selected(hits + seq![hit]),
{
    let shown = result_views(list.push(next));
    let wanted = first_selected(hits + seq![hit]);
    assert(result_views(list).len() == list.len());
    assert(first_selected(hits).len() == hits.len());
    assert(shown.len() == wanted.len());
    assert forall|i: int| 0 <= i < shown.len() implies shown[i] == wanted[i] by {
        if i < list.len() {
            assert(shown[i] == result_views(list)[i]);
            assert(first_selected(hits)[i] == wanted[i]);
        }
    }
    assert(shown =~= wanted);
}

/// The result for a match of `terms` in the content `text` of the entry
/// `key`, at the byte offset `start`.
pub fn content_result(key: &str, text: &str, terms: &str, start: usize, selected: bool) -> (r:
    SearchResult)
    ensures
        r@ == (SearchResultView { selected, ..content_hit(key@, text@, terms@, start as int) }),
{
    let chars = to_chars(text);
    let at = index_at(&chars, start);
    let len = to_chars(terms).len();
    let bytes: usize = terms.as_bytes().len();
    let end: usize = if bytes <= usize::MAX - start {
        start + bytes
    } else {
        usize::MAX
    };
    SearchResult {
        file_path: String::from_str(key),
        line_matched: make_snippet(&chars, at, len),
        match_name: false,
        match_contents: true,
        selected,
        start,
        end,
    }
}

/// The result for a match in the key `key`.
pub fn name_result(key: &str, selected: bool) -> (r: SearchResult)
    ensures
        r@ == (SearchResultView { selected, ..name_hit(key@) }),
{
    SearchResult {
        file_path: String::from_str(key),
        line_matched: String::new(),
        match_name: true,
        match_contents: false,
        selected,
        start: 0,
        end: 0,
    }
}

/// The text of an entry that a search looks at.
fn text_to_search(file: &FileType) -> (text: String)
    ensures
        text@ == searched_text(file@),
{
    match file {
        FileType::Text(text_file) => match &text_file.content {
            Some(content) => content.clone(),
            None => {
                proof {
                    reveal_strlit("???");
                }
                let text = String::from_str("???");
                assert(text@ =~= placeholder());
                text
            },
        },
        FileType::Image(_) => String::new(),
    }
}

/// Searches the store for `terms`. With an empty query there is no search
/// and no result list. Otherwise the entries are gone through in the order
/// of the keys. Unless `match_case` is set, the query and each content are
/// folded to lower case first; keys are compared as they are. An entry
/// gives a result for its content and one for its key, each if asked for
/// and found. The cursor is on the first result. Nothing is read from
/// disk: a text whose content is not in memory is searched as the
/// placeholder.
pub fn on_search(
    match_name: bool,
    match_contents: bool,
    match_case: bool,
    regex: bool,
    terms: &str,
    db: &Database,
) -> (results: Option<Vec<SearchResult>>)
    ensures
        match results {
            Some(list) => {
                &&& terms@.len() > 0
                &&& result_views(list@) == search_results(
                    db@,
                    (SearchFlags { match_name, match_contents, match_case, regex }),
                    terms@,
                )
                &&& forall|i: int| 0 <= i < list@.len() ==> (#[trigger] list@[i]).selected == (i == 0)
            },
            None => terms@.len() == 0,
        },
{
    if terms.is_empty() {
        return None;
    }
    let ghost flags = SearchFlags { match_name, match_contents, match_case, regex };
    let query = if match_case {
        String::from_str(terms)
    } else {
        to_lower(terms)
    };
    let ghost store = db@;
    let mut results: Vec<SearchResult> = Vec::new();
    let n = db.len();
    let mut i: usize = 0;
    assert(result_views(results@) =~= first_selected(hits_upto(store, flags, query@, 0)));
    while i < n
        invariant
            i <= n,
            n == store.order.len(),
            store == db@,
            flags == (SearchFlags { match_name, match_contents, match_case, regex }),
            result_views(results@) == first_selected(hits_upto(store, flags, query@, i as nat)),
        decreases n - i,
    {
        let (key, file) = db.entry_at(i);
        let ghost before = hits_upto(store, flags, query@, i as nat);
        let ghost mut in_content: Seq<SearchResultView> = Seq::empty();
        let ghost mut in_name: Seq<SearchResultView> = Seq::empty();
        assert(before + in_content == before);
        if match_contents {
            let raw = text_to_search(file);
            let text = if match_case {
                raw
            } else {
                to_lower(raw.as_str())
            };
            match find(regex, query.as_str(), text.as_str()) {
                Some(start) => {
                    let selected = results.len() == 0;
                    let hit = content_result(
                        key.as_str(),
                        text.as_str(),
                        query.as_str(),
                        start,
                        selected,
                    );
                    proof {
                        let shown = content_hit(key@, text@, query@, start as int);
                        lemma_push_hit(results@, before, hit, shown);
                        in_content = seq![shown];
                    }
                    results.push(hit);
                },
                None => {},
            }
        }
        assert(result_views(results@) == first_selected(before + in_content));
        assert(before + in_content + in_name == before + in_content);
        if match_name {
            match find(regex, query.as_str(), key.as_str()) {
                Some(_) => {
                    let selected = results.len() == 0;
                    let hit = name_result(key.as_str(), selected);
                    proof {
                        lemma_push_hit(results@, before + in_content, hit, name_hit(key@));
                        in_name = seq![name_hit(key@)];
                    }
                    results.push(hit);
                },
                None => {},
            }
        }
        proof {
            assert(in_content + in_name == entry_hits(flags, query@, key@, store.entries[key@]));
            assert(before + in_content + in_name == before + (in_content + in_name));
        }
        i += 1;
    }
    assert forall|i: int| 0 <= i < results@.len() implies (#[trigger] results@[i]).selected == (i
        == 0) by {
        assert(result_views(results@)[i] == results@[i]@);
    }
    Some(results)
}

} // verus!
