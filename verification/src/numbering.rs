//! Numbered variants of a key, `"name 1"`, `"name 2"` and so on, from which
//! a key that is still free is picked.

use vstd::prelude::*;
use vstd::set_lib::*;

verus! {

/// The character of a decimal digit.
pub open spec fn digit(d: int) -> char {
    if d == 0 {
        '0'
    } else if d == 1 {
        '1'
    } else if d == 2 {
        '2'
    } else if d == 3 {
        '3'
    } else if d == 4 {
        '4'
    } else if d == 5 {
        '5'
    } else if d == 6 {
        '6'
    } else if d == 7 {
        '7'
    } else if d == 8 {
        '8'
    } else {
        '9'
    }
}

/// `n` written in decimal, without leading zeros.
pub open spec fn decimal(n: nat) -> Seq<char>
    decreases n,
{
    if n < 10 {
        seq![digit(n as int)]
    } else {
        decimal(n / 10).push(digit((n % 10) as int))
    }
}

/// The `n`-th candidate for a key named after `base`: `base` itself, then
/// `base`, a space and the number.
pub open spec fn numbered(base: Seq<char>, n: nat) -> Seq<char> {
    if n == 0 {
        base
    } else {
        base + seq![' '] + decimal(n)
    }
}

/// `n` is the first number whose candidate is not in `keys`.
pub open spec fn is_first_free(keys: Set<Seq<char>>, base: Seq<char>, n: nat) -> bool {
    &&& !keys.contains(numbered(base, n))
    &&& forall|m: nat| m < n ==> keys.contains(#[trigger] numbered(base, m))
}

/// The first candidate named after `base` that is not in `keys`.
pub open spec fn unique_key(keys: Set<Seq<char>>, base: Seq<char>) -> Seq<char> {
    numbered(base, choose|n: nat| is_first_free(keys, base, n))
}

/// Different numbers are written differently.
pub proof fn lemma_decimal_injective(a: nat, b: nat)
    requires
        decimal(a) == decimal(b),
    ensures
        a == b,
    decreases a,
{
    if a < 10 && b < 10 {
        assert(decimal(a)[0] == digit(a as int));
        assert(decimal(b)[0] == digit(b as int));
        lemma_digit_injective(a as int, b as int);
    } else if a < 10 {
        assert(decimal(b).len() == decimal(b / 10).len() + 1);
        lemma_decimal_nonempty(b / 10);
    } else if b < 10 {
        assert(decimal(a).len() == decimal(a / 10).len() + 1);
        lemma_decimal_nonempty(a / 10);
    } else {
        assert(decimal(a).last() == digit((a % 10) as int));
        assert(decimal(b).last() == digit((b % 10) as int));
        lemma_digit_injective((a % 10) as int, (b % 10) as int);
        assert(decimal(a).drop_last() == decimal(a / 10));
        assert(decimal(b).drop_last() == decimal(b / 10));
        lemma_decimal_injective(a / 10, b / 10);
    }
}

/// Different digits have different characters.
pub proof fn lemma_digit_injective(x: int, y: int)
    requires
        0 <= x < 10,
        0 <= y < 10,
        digit(x) == digit(y),
    ensures
        x == y,
{
}

/// Every number has at least one digit.
pub proof fn lemma_decimal_nonempty(n: nat)
    ensures
        decimal(n).len() >= 1,
    decreases n,
{
    if n >= 10 {
        lemma_decimal_nonempty(n / 10);
    }
}

/// Different numbers give different candidates.
pub proof fn lemma_numbered_injective(base: Seq<char>, m: nat, n: nat)
    requires
        numbered(base, m) == numbered(base, n),
    ensures
        m == n,
{
    if m > 0 && n > 0 {
        let skip = base.len() + 1;
        assert(numbered(base, m).subrange(skip as int, numbered(base, m).len() as int) == decimal(m));
        assert(numbered(base, n).subrange(skip as int, numbered(base, n).len() as int) == decimal(n));
        lemma_decimal_injective(m, n);
    } else if m > 0 {
        assert(numbered(base, m).len() == base.len() + 1 + decimal(m).len());
    } else if n > 0 {
        assert(numbered(base, n).len() == base.len() + 1 + decimal(n).len());
    }
}

/// A finite set that holds the first `count` candidates has at least
/// `count` members.
pub proof fn lemma_candidates_fit(keys: Set<Seq<char>>, base: Seq<char>, count: nat)
    requires
        keys.finite(),
        forall|m: nat| m < count ==> keys.contains(#[trigger] numbered(base, m)),
    ensures
        count <= keys.len(),
    decreases count,
{
    if count > 0 {
        let last = numbered(base, (count - 1) as nat);
        let rest = keys.remove(last);
        assert forall|m: nat| m < count - 1 implies rest.contains(#[trigger] numbered(base, m)) by {
            if numbered(base, m) == last {
                lemma_numbered_injective(base, m, (count - 1) as nat);
            }
        }
        lemma_candidates_fit(rest, base, (count - 1) as nat);
    }
}

/// At most one number is the first free one, so the free key that is
/// picked depends on the keys and the base alone.
pub proof fn lemma_first_free_unique(keys: Set<Seq<char>>, base: Seq<char>, m: nat, n: nat)
    requires
        is_first_free(keys, base, m),
        is_first_free(keys, base, n),
    ensures
        m == n,
        unique_key(keys, base) == numbered(base, n),
{
    if m < n {
        assert(keys.contains(numbered(base, m)));
    }
    if n < m {
        assert(keys.contains(numbered(base, n)));
    }
    let c = choose|c: nat| is_first_free(keys, base, c);
    if c < n {
        assert(keys.contains(numbered(base, c)));
    }
    if n < c {
        assert(keys.contains(numbered(base, n)));
    }
}

/// The character of the digit `d`.
fn digit_char(d: usize) -> (c: char)
    requires
        d < 10,
    ensures
        c == digit(d as int),
{
    if d == 0 {
        '0'
    } else if d == 1 {
        '1'
    } else if d == 2 {
        '2'
    } else if d == 3 {
        '3'
    } else if d == 4 {
        '4'
    } else if d == 5 {
        '5'
    } else if d == 6 {
        '6'
    } else if d == 7 {
        '7'
    } else if d == 8 {
        '8'
    } else {
        '9'
    }
}

/// Appends `n` in decimal to `out`.
pub fn push_decimal(out: &mut Vec<char>, n: usize)
    ensures
        final(out)@ == old(out)@ + decimal(n as nat),
    decreases n,
{
    if n >= 10 {
        push_decimal(out, n / 10);
    }
    out.push(digit_char(n % 10));
}

/// The `n`-th candidate for a key named after `base`.
pub fn numbered_key(base: &Vec<char>, n: usize) -> (key: Vec<char>)
    ensures
        key@ == numbered(base@, n as nat),
{
    let mut key = base.clone();
    if n > 0 {
        key.push(' ');
        push_decimal(&mut key, n);
    }
    key
}

} // verus!
