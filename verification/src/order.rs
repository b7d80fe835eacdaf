//! The lexicographic order on texts, by code point, in which the store keeps
//! its keys.

use vstd::prelude::*;

verus! {

/// `a` and `b` agree on their first `i` characters, and there `a` ends while
/// `b` goes on, or `a` holds the smaller code point.
pub open spec fn precedes_at(a: Seq<char>, b: Seq<char>, i: int) -> bool {
    &&& 0 <= i <= a.len()
    &&& i < b.len()
    &&& a.take(i) == b.take(i)
    &&& (i == a.len() || (a[i] as u32) < (b[i] as u32))
}

/// `a` comes strictly before `b` in lexicographic order.
pub open spec fn precedes(a: Seq<char>, b: Seq<char>) -> bool {
    exists|i: int| precedes_at(a, b, i)
}

/// Each text of `keys` comes strictly before every later one.
pub open spec fn increasing(keys: Seq<Seq<char>>) -> bool {
    forall|i: int, j: int| 0 <= i < j < keys.len() ==> precedes(#[trigger] keys[i], #[trigger] keys[j])
}

/// How one text stands to another in lexicographic order.
#[derive(Clone, Copy, Debug, PartialEq, Eq, Structural)]
pub enum Rank {
    Before,
    Same,
    After,
}

/// The rank that the contract of [`rank`] gives to a pair of texts.
pub open spec fn ranked(a: Seq<char>, b: Seq<char>, r: Rank) -> bool {
    match r {
        Rank::Before => precedes(a, b),
        Rank::Same => a == b,
        Rank::After => precedes(b, a),
    }
}

/// No text comes before itself.
pub proof fn lemma_precedes_irreflexive(a: Seq<char>)
    ensures
        !precedes(a, a),
{
}

/// The order is transitive.
pub proof fn lemma_precedes_transitive(a: Seq<char>, b: Seq<char>, c: Seq<char>)
    requires
        precedes(a, b),
        precedes(b, c),
    ensures
        precedes(a, c),
{
    let i = choose|i: int| precedes_at(a, b, i);
    let j = choose|j: int| precedes_at(b, c, j);
    let k = if i <= j { i } else { j };
    assert(a.take(k) == a.take(i).take(k));
    assert(b.take(k) == b.take(i).take(k));
    assert(b.take(k) == b.take(j).take(k));
    assert(c.take(k) == c.take(j).take(k));
    if i < j {
        assert(b.take(j)[i] == c.take(j)[i]);
    } else if j < i {
        assert(a.take(i)[j] == b.take(i)[j]);
    }
    assert(precedes_at(a, c, k));
}

/// Of two texts at most one comes before the other.
pub proof fn lemma_precedes_asymmetric(a: Seq<char>, b: Seq<char>)
    requires
        precedes(a, b),
    ensures
        !precedes(b, a),
        a != b,
{
    if precedes(b, a) {
        lemma_precedes_transitive(a, b, a);
    }
    lemma_precedes_irreflexive(a);
}

/// Of two different texts one comes before the other.
pub proof fn lemma_precedes_total(a: Seq<char>, b: Seq<char>)
    ensures
        precedes(a, b) || a == b || precedes(b, a),
{
    assert(a.take(0) =~= b.take(0));
    lemma_precedes_total_from(a, b, 0);
}

proof fn lemma_precedes_total_from(a: Seq<char>, b: Seq<char>, i: int)
    requires
        0 <= i <= a.len(),
        i <= b.len(),
        a.take(i) == b.take(i),
    ensures
        precedes(a, b) || a == b || precedes(b, a),
    decreases a.len() - i,
{
    if i == a.len() && i == b.len() {
        assert(a.take(i) == a);
        assert(b.take(i) == b);
    } else if i == a.len() {
        assert(precedes_at(a, b, i));
    } else if i == b.len() {
        assert(precedes_at(b, a, i));
    } else if (a[i] as u32) < (b[i] as u32) {
        assert(precedes_at(a, b, i));
    } else if (b[i] as u32) < (a[i] as u32) {
        assert(precedes_at(b, a, i));
    } else {
        assert(a[i] == b[i]) by {
            vstd::utf8::char_u32_cast(a[i], a[i] as u32);
            vstd::utf8::char_u32_cast(b[i], b[i] as u32);
        }
        assert(a.take(i + 1) == a.take(i).push(a[i]));
        assert(b.take(i + 1) == b.take(i).push(b[i]));
        lemma_precedes_total_from(a, b, i + 1);
    }
}

/// An increasing sequence holds no text twice.
pub proof fn lemma_increasing_distinct(keys: Seq<Seq<char>>)
    requires
        increasing(keys),
    ensures
        keys.no_duplicates(),
{
    assert forall|i: int, j: int| 0 <= i < keys.len() && 0 <= j < keys.len() && i != j implies keys[i]
        != keys[j] by {
        if i < j {
            lemma_precedes_asymmetric(keys[i], keys[j]);
        } else {
            lemma_precedes_asymmetric(keys[j], keys[i]);
        }
    }
}

/// Two increasing sequences that hold the same texts are the same sequence.
pub proof fn lemma_increasing_determined(a: Seq<Seq<char>>, b: Seq<Seq<char>>)
    requires
        increasing(a),
        increasing(b),
        forall|k: Seq<char>| a.contains(k) <==> b.contains(k),
    ensures
        a == b,
    decreases a.len(),
{
    if a.len() == 0 {
        if b.len() > 0 {
            assert(b.contains(b[0]));
        }
        assert(a =~= b);
    } else if b.len() == 0 {
        assert(a.contains(a[0]));
    } else {
        let x = a.last();
        let y = b.last();
        assert(a.contains(x));
        assert(b.contains(y));
        let i = b.index_of(x);
        let j = a.index_of(y);
        if x != y {
            assert(precedes(b[i], b[b.len() - 1]));
            assert(precedes(a[j], a[a.len() - 1]));
            lemma_precedes_asymmetric(x, y);
        }
        let a1 = a.drop_last();
        let b1 = b.drop_last();
        assert forall|k: Seq<char>| a1.contains(k) <==> b1.contains(k) by {
            if a1.contains(k) {
                let p = a1.index_of(k);
                assert(a[p] == k);
                assert(precedes(a[p], a[a.len() - 1]));
                lemma_precedes_asymmetric(k, x);
                assert(a.contains(k));
                let q = b.index_of(k);
                assert(b1[q] == k);
            }
            if b1.contains(k) {
                let p = b1.index_of(k);
                assert(b[p] == k);
                assert(precedes(b[p], b[b.len() - 1]));
                lemma_precedes_asymmetric(k, y);
                assert(b.contains(k));
                let q = a.index_of(k);
                assert(a1[q] == k);
            }
        }
        assert(increasing(a1)) by {
            assert forall|p: int, q: int| 0 <= p < q < a1.len() implies precedes(
                #[trigger] a1[p],
                #[trigger] a1[q],
            ) by {
                assert(precedes(a[p], a[q]));
            }
        }
        assert(increasing(b1)) by {
            assert forall|p: int, q: int| 0 <= p < q < b1.len() implies precedes(
                #[trigger] b1[p],
                #[trigger] b1[q],
            ) by {
                assert(precedes(b[p], b[q]));
            }
        }
        lemma_increasing_determined(a1, b1);
        assert(a =~= a1.push(x));
        assert(b =~= b1.push(y));
    }
}

/// Compares two texts character by character.
pub fn rank(a: &Vec<char>, b: &Vec<char>) -> (r: Rank)
    ensures
        ranked(a@, b@, r),
{
    let mut i: usize = 0;
    while i < a.len() && i < b.len()
        invariant
            i <= a.len(),
            i <= b.len(),
            a@.take(i as int) == b@.take(i as int),
        decreases a.len() - i,
    {
        let x: u32 = a[i] as u32;
        let y: u32 = b[i] as u32;
        if x < y {
            assert(precedes_at(a@, b@, i as int));
            return Rank::Before;
        }
        if y < x {
            assert(precedes_at(b@, a@, i as int));
            return Rank::After;
        }
        assert(a@[i as int] == b@[i as int]) by {
            vstd::utf8::char_u32_cast(a@[i as int], x);
            vstd::utf8::char_u32_cast(b@[i as int], y);
        }
        assert(a@.take(i + 1) == a@.take(i as int).push(a@[i as int]));
        assert(b@.take(i + 1) == b@.take(i as int).push(b@[i as int]));
        i += 1;
    }
    if i < b.len() {
        assert(precedes_at(a@, b@, i as int));
        Rank::Before
    } else if i < a.len() {
        assert(precedes_at(b@, a@, i as int));
        Rank::After
    } else {
        assert(a@.take(i as int) == a@);
        assert(b@.take(i as int) == b@);
        Rank::Same
    }
}

} // verus!
