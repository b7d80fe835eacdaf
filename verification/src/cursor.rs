//! The cursor on a list of search results: which result is selected, and
//! how the selection moves down.

use crate::search::{result_views, SearchResult, SearchResultView};
use vstd::prelude::*;

verus! {

/// The index of the first selected result from `k` on; the length of the
/// list if there is none.
pub open spec fn selected_from(list: Seq<SearchResultView>, k: int) -> int
    decreases list.len() - k,
{
    if k < 0 || k >= list.len() || list[k].selected {
        k
    } else {
        selected_from(list, k + 1)
    }
}

/// The index of the first result from `k` on that is not selected; the
/// length of the list if there is none.
pub open spec fn unselected_from(list: Seq<SearchResultView>, k: int) -> int
    decreases list.len() - k,
{
    if k < 0 || k >= list.len() || !list[k].selected {
        k
    } else {
        unselected_from(list, k + 1)
    }
}

/// The index of the first selected result, if any is selected.
pub open spec fn cursor(list: Seq<SearchResultView>) -> Option<int> {
    if selected_from(list, 0) < list.len() {
        Some(selected_from(list, 0))
    } else {
        None
    }
}

/// The same result, selected or not.
pub open spec fn with_selected(r: SearchResultView, selected: bool) -> SearchResultView {
    SearchResultView { selected, ..r }
}

/// `list` with the results from `from` up to `to` unselected.
pub open spec fn cleared(list: Seq<SearchResultView>, from: int, to: int) -> Seq<SearchResultView> {
    Seq::new(
        list.len(),
        |k: int|
            if from <= k < to {
                with_selected(list[k], false)
            } else {
                list[k]
            },
    )
}

/// `list` with the result at `at` selected, and no other.
pub open spec fn only_selected(list: Seq<SearchResultView>, at: int) -> Seq<SearchResultView> {
    Seq::new(list.len(), |k: int| with_selected(list[k], k == at))
}

/// The list after the cursor has moved down, and the index it is on.
/// Without a selected result nothing changes and the index is 0. Otherwise
/// the first selected result, and every selected result that follows it
/// without a gap, is unselected; the result behind them is selected, or the
/// first of the list where they reach its end.
pub open spec fn moved_down(list: Seq<SearchResultView>) -> (Seq<SearchResultView>, int) {
    match cursor(list) {
        None => (list, 0),
        Some(at) => {
            let behind = unselected_from(list, at);
            let target = if behind < list.len() {
                behind
            } else {
                0
            };
            let rest = cleared(list, at, behind);
            (rest.update(target, with_selected(rest[target], true)), target)
        },
    }
}

/// The first selected result lies at `k` or later, within the list or at its
/// end, and nothing before it from `k` on is selected.
pub proof fn lemma_selected_from(list: Seq<SearchResultView>, k: int)
    requires
        0 <= k <= list.len(),
    ensures
        k <= selected_from(list, k) <= list.len(),
        selected_from(list, k) < list.len() ==> list[selected_from(list, k)].selected,
        forall|j: int| k <= j < selected_from(list, k) ==> !(#[trigger] list[j]).selected,
    decreases list.len() - k,
{
    if k < list.len() && !list[k].selected {
        lemma_selected_from(list, k + 1);
    }
}

/// The first unselected result lies at `k` or later, within the list or at
/// its end, and everything before it from `k` on is selected.
pub proof fn lemma_unselected_from(list: Seq<SearchResultView>, k: int)
    requires
        0 <= k <= list.len(),
    ensures
        k <= unselected_from(list, k) <= list.len(),
        unselected_from(list, k) < list.len() ==> !list[unselected_from(list, k)].selected,
        forall|j: int| k <= j < unselected_from(list, k) ==> (#[trigger] list[j]).selected,
    decreases list.len() - k,
{
    if k < list.len() && list[k].selected {
        lemma_unselected_from(list, k + 1);
    }
}

/// With exactly one result selected, moving down selects the next one and
/// no other, and from the last result goes round to the first.
pub proof fn lemma_move_down_single(list: Seq<SearchResultView>, at: int)
    requires
        0 <= at < list.len(),
        forall|k: int| 0 <= k < list.len() ==> ((#[trigger] list[k]).selected <==> k == at),
    ensures
        moved_down(list).1 == (at + 1) % (list.len() as int),
        moved_down(list).0 == only_selected(list, (at + 1) % (list.len() as int)),
{
    lemma_selected_from(list, 0);
    assert(list[at].selected);
    assert(selected_from(list, 0) == at);
    lemma_unselected_from(list, at);
    assert(unselected_from(list, at) == at + 1) by {
        if at + 1 < list.len() {
            assert(!list[at + 1].selected);
        }
    }
    let n = list.len() as int;
    let target = if at + 1 < n { at + 1 } else { 0 };
    assert(target == (at + 1) % n) by {
        if at + 1 < n {
            assert((at + 1) % n == at + 1) by (nonlinear_arith)
                requires
                    0 <= at + 1 < n,
            ;
        } else {
            assert((at + 1) % n == 0) by (nonlinear_arith)
                requires
                    at + 1 == n,
                    n > 0,
            ;
        }
    }
    assert(moved_down(list).0 =~= only_selected(list, target));
}

/// The index of the result that the cursor is on, if it is on one.
pub fn on_pressed_enter(results: &Vec<SearchResult>) -> (at: Option<usize>)
    ensures
        match at {
            Some(i) => cursor(result_views(results@)) == Some(i as int),
            None => cursor(result_views(results@)) is None,
        },
{
    let ghost list = result_views(results@);
    let mut i: usize = 0;
    while i < results.len()
        invariant
            i <= results.len(),
            list == result_views(results@),
            selected_from(list, i as int) == selected_from(list, 0),
        decreases results.len() - i,
    {
        if results[i].selected {
            assert(list[i as int].selected);
            return Some(i);
        }
        assert(!list[i as int].selected);
        i += 1;
    }
    None
}

/// Moves the cursor down by one result, and gives the index it is on. See
/// [`moved_down`].
pub fn on_move_down(results: &mut Vec<SearchResult>) -> (at: usize)
    ensures
        result_views(final(results)@) == moved_down(result_views(old(results)@)).0,
        at == moved_down(result_views(old(results)@)).1,
{
    let ghost list = result_views(results@);
    let first = match on_pressed_enter(results) {
        Some(i) => i,
        None => {
            return 0;
        },
    };
    proof {
        lemma_selected_from(list, 0);
    }
    let n = results.len();
    let mut j: usize = first;
    while j < n && results[j].selected
        invariant
            first <= j <= n,
            n == list.len(),
            results@.len() == n,
            unselected_from(list, j as int) == unselected_from(list, first as int),
            result_views(results@) == cleared(list, first as int, j as int),
        decreases n - j,
    {
        let ghost before = results@;
        assert(result_views(before)[j as int] == before[j as int]@);
        assert(list[j as int].selected);
        results[j].selected = false;
        proof {
            let after = result_views(results@);
            let wanted = cleared(list, first as int, j + 1);
            assert(after.len() == wanted.len());
            assert forall|k: int| 0 <= k < after.len() implies after[k] == wanted[k] by {
                assert(after[k] == results@[k]@);
                assert(result_views(before)[k] == before[k]@);
            }
            assert(after =~= wanted);
        }
        j += 1;
    }
    proof {
        if j < n {
            assert(result_views(results@)[j as int] == list[j as int]);
            assert(!list[j as int].selected);
        }
        assert(unselected_from(list, first as int) == j);
    }
    let target: usize = if j < n {
        j
    } else {
        0
    };
    let ghost rest = result_views(results@);
    let ghost before = results@;
    results[target].selected = true;
    proof {
        let after = result_views(results@);
        let wanted = rest.update(target as int, with_selected(rest[target as int], true));
        assert(after.len() == wanted.len());
        assert forall|k: int| 0 <= k < after.len() implies after[k] == wanted[k] by {
            assert(after[k] == results@[k]@);
            assert(rest[k] == before[k]@);
        }
        assert(after =~= wanted);
    }
    target
}

} // verus!
