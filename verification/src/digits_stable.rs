//! Digit-sequence repair is stable: repairing an already repaired text
//! changes nothing.
use vstd::prelude::*;
use crate::digits::{
    ascii_digits, collapse, digit_run_end, fix_digits, fix_from, groups_end, is_decimal_digit,
    lemma_ascii_digits_all_digits, lemma_digit_run_end_bounds, lemma_digit_run_skip,
    lemma_sequence_end_bounds, lemma_space_run_end_bounds, sequence_end, space_run_end,
};
use crate::text::{is_ascii_digit, is_white_space};

verus! {

/// Position `x` of `a` and position `y` of `b` hold the same character, or
/// both lie past the end.
spec fn same_at(a: Seq<char>, x: int, b: Seq<char>, y: int) -> bool {
    &&& (x < a.len()) == (y < b.len())
    &&& x < a.len() ==> a[x] == b[y]
}

/// `a` from `p` and `b` from `q` agree on positions `0..=n`.
spec fn agree_upto(a: Seq<char>, p: int, b: Seq<char>, q: int, n: int) -> bool {
    forall|k: int| 0 <= k <= n ==> #[trigger] same_at(a, p + k, b, q + k)
}

proof fn lemma_run_agree(a: Seq<char>, p: int, b: Seq<char>, q: int)
    requires
        0 <= p,
        0 <= q,
        agree_upto(a, p, b, q, digit_run_end(a, p) - p),
    ensures
        digit_run_end(b, q) - q == digit_run_end(a, p) - p,
    decreases a.len() - p,
{
    lemma_digit_run_end_bounds(a, p);
    assert(same_at(a, p + 0, b, q + 0));
    if 0 <= p < a.len() && is_decimal_digit(a[p]) {
        assert forall|k: int| 0 <= k <= digit_run_end(a, p + 1) - (p + 1) implies #[trigger] same_at(
            a,
            p + 1 + k,
            b,
            q + 1 + k,
        ) by {
            assert(same_at(a, p + (k + 1), b, q + (k + 1)));
        }
        lemma_run_agree(a, p + 1, b, q + 1);
    }
}

proof fn lemma_space_agree(a: Seq<char>, p: int, b: Seq<char>, q: int)
    requires
        0 <= p,
        0 <= q,
        agree_upto(a, p, b, q, space_run_end(a, p) - p),
    ensures
        space_run_end(b, q) - q == space_run_end(a, p) - p,
    decreases a.len() - p,
{
    lemma_space_run_end_bounds(a, p);
    assert(same_at(a, p + 0, b, q + 0));
    if 0 <= p < a.len() && is_white_space(a[p]) {
        assert forall|k: int| 0 <= k <= space_run_end(a, p + 1) - (p + 1) implies #[trigger] same_at(
            a,
            p + 1 + k,
            b,
            q + 1 + k,
        ) by {
            assert(same_at(a, p + (k + 1), b, q + (k + 1)));
        }
        lemma_space_agree(a, p + 1, b, q + 1);
    }
}

proof fn lemma_agree_sub(a: Seq<char>, p: int, b: Seq<char>, q: int, n: int, d: int, m: int)
    requires
        agree_upto(a, p, b, q, n),
        0 <= d,
        d + m <= n,
    ensures
        agree_upto(a, p + d, b, q + d, m),
{
    assert forall|k: int| 0 <= k <= m implies #[trigger] same_at(a, p + d + k, b, q + d + k) by {
        assert(same_at(a, p + (d + k), b, q + (d + k)));
    }
}

/// The last position `groups_end` looks at (capped at the end).
spec fn groups_extent(t: Seq<char>, k: int) -> int
    decreases t.len() - k,
{
    if 0 <= k < t.len() && t[k] == ',' {
        let m = space_run_end(t, k + 1);
        if m < t.len() && is_decimal_digit(t[m]) {
            proof {
                lemma_space_run_end_bounds(t, k + 1);
                lemma_digit_run_end_bounds(t, m);
            }
            groups_extent(t, digit_run_end(t, m))
        } else {
            m
        }
    } else {
        k
    }
}

proof fn lemma_groups_extent_bounds(t: Seq<char>, k: int)
    requires
        0 <= k,
    ensures
        k <= groups_end(t, k) <= groups_extent(t, k),
        k <= t.len() ==> groups_extent(t, k) <= t.len(),
    decreases t.len() - k,
{
    if 0 <= k < t.len() && t[k] == ',' {
        let m = space_run_end(t, k + 1);
        lemma_space_run_end_bounds(t, k + 1);
        if m < t.len() && is_decimal_digit(t[m]) {
            lemma_digit_run_end_bounds(t, m);
            lemma_groups_extent_bounds(t, digit_run_end(t, m));
        }
    }
}

proof fn lemma_groups_agree(a: Seq<char>, p: int, b: Seq<char>, q: int)
    requires
        0 <= p,
        0 <= q,
        agree_upto(a, p, b, q, groups_extent(a, p) - p),
    ensures
        groups_end(b, q) - q == groups_end(a, p) - p,
        groups_extent(b, q) - q == groups_extent(a, p) - p,
    decreases a.len() - p,
{
    lemma_groups_extent_bounds(a, p);
    assert(same_at(a, p + 0, b, q + 0));
    if 0 <= p < a.len() && a[p] == ',' {
        let m = space_run_end(a, p + 1);
        lemma_space_run_end_bounds(a, p + 1);
        let ext = groups_extent(a, p);
        if m < a.len() && is_decimal_digit(a[m]) {
            let r = digit_run_end(a, m);
            lemma_digit_run_end_bounds(a, m);
            lemma_groups_extent_bounds(a, r);
            lemma_agree_sub(a, p, b, q, ext - p, 1, m - (p + 1));
            lemma_space_agree(a, p + 1, b, q + 1);
            let mb = space_run_end(b, q + 1);
            assert(same_at(a, p + (m - p), b, q + (m - p)));
            lemma_agree_sub(a, p, b, q, ext - p, m - p, r - m);
            lemma_run_agree(a, m, b, mb);
            let rb = digit_run_end(b, mb);
            lemma_agree_sub(a, p, b, q, ext - p, r - p, ext - r);
            lemma_groups_agree(a, r, b, rb);
        } else {
            lemma_agree_sub(a, p, b, q, ext - p, 1, m - (p + 1));
            lemma_space_agree(a, p + 1, b, q + 1);
            assert(same_at(a, p + (m - p), b, q + (m - p)));
        }
    }
}

/// The last position `sequence_end` looks at (capped at the end).
spec fn sequence_extent(t: Seq<char>, i: int) -> int {
    if 0 <= i < t.len() && is_decimal_digit(t[i]) {
        groups_extent(t, digit_run_end(t, i))
    } else {
        i
    }
}

proof fn lemma_sequence_extent_bounds(t: Seq<char>, i: int)
    requires
        0 <= i,
    ensures
        i <= sequence_end(t, i) <= sequence_extent(t, i),
{
    if 0 <= i < t.len() && is_decimal_digit(t[i]) {
        lemma_digit_run_end_bounds(t, i);
        lemma_groups_extent_bounds(t, digit_run_end(t, i));
    }
}

proof fn lemma_sequence_agree(a: Seq<char>, p: int, b: Seq<char>, q: int)
    requires
        0 <= p,
        0 <= q,
        agree_upto(a, p, b, q, sequence_extent(a, p) - p),
    ensures
        sequence_end(b, q) - q == sequence_end(a, p) - p,
{
    lemma_sequence_extent_bounds(a, p);
    assert(same_at(a, p + 0, b, q + 0));
    if 0 <= p < a.len() && is_decimal_digit(a[p]) {
        let j = digit_run_end(a, p);
        lemma_digit_run_end_bounds(a, p);
        lemma_groups_extent_bounds(a, j);
        let ext = sequence_extent(a, p);
        lemma_agree_sub(a, p, b, q, ext - p, 0, j - p);
        lemma_run_agree(a, p, b, q);
        let jb = digit_run_end(b, q);
        lemma_agree_sub(a, p, b, q, ext - p, j - p, ext - j);
        lemma_groups_agree(a, j, b, jb);
    }
}

proof fn lemma_prefix_kept(v: Seq<char>, x: int, z: int)
    requires
        0 <= x <= z <= v.len(),
        forall|y: int| x <= y < z ==> #[trigger] sequence_end(v, y) == y,
    ensures
        fix_from(v, x) == v.subrange(x, z) + fix_from(v, z),
    decreases z - x,
{
    if x < z {
        lemma_prefix_kept(v, x + 1, z);
        assert(v.subrange(x, z) =~= seq![v[x]] + v.subrange(x + 1, z));
    } else {
        assert(v.subrange(x, z) =~= Seq::<char>::empty());
    }
}

proof fn lemma_shift_from(t: Seq<char>, i: int, x: int)
    requires
        0 <= i <= x <= t.len(),
    ensures
        fix_from(t, x) == fix_from(t.skip(i), x - i),
    decreases t.len() - x,
{
    let s = t.skip(i);
    if x < t.len() {
        lemma_sequence_extent_bounds(t, x);
        assert forall|k: int| 0 <= k <= sequence_extent(t, x) - x implies #[trigger] same_at(
            t,
            x + k,
            s,
            x - i + k,
        ) by {}
        lemma_sequence_agree(t, x, s, x - i);
        lemma_sequence_end_bounds(t, x);
        let e = sequence_end(t, x);
        if e > x {
            lemma_shift_from(t, i, e);
            assert(s.subrange(x - i, e - i) =~= t.subrange(x, e));
        } else {
            lemma_shift_from(t, i, x + 1);
        }
    }
}

/// Repair from a position is repair of the text from there on.
proof fn lemma_shift(t: Seq<char>, i: int)
    requires
        0 <= i <= t.len(),
    ensures
        fix_from(t, i) == fix_digits(t.skip(i)),
{
    lemma_shift_from(t, i, i);
}

proof fn lemma_groups_fixpoint(t: Seq<char>, k: int)
    requires
        0 <= k,
    ensures
        groups_end(t, groups_end(t, k)) == groups_end(t, k),
        groups_extent(t, groups_end(t, k)) == groups_extent(t, k),
    decreases t.len() - k,
{
    if 0 <= k < t.len() && t[k] == ',' {
        let m = space_run_end(t, k + 1);
        lemma_space_run_end_bounds(t, k + 1);
        if m < t.len() && is_decimal_digit(t[m]) {
            lemma_digit_run_end_bounds(t, m);
            lemma_groups_fixpoint(t, digit_run_end(t, m));
        }
    }
}

proof fn lemma_groups_end_nondigit(t: Seq<char>, k: int)
    requires
        0 <= k,
        k < t.len() ==> !is_decimal_digit(t[k]),
    ensures
        groups_end(t, k) < t.len() ==> !is_decimal_digit(t[groups_end(t, k)]),
    decreases t.len() - k,
{
    if 0 <= k < t.len() && t[k] == ',' {
        let m = space_run_end(t, k + 1);
        lemma_space_run_end_bounds(t, k + 1);
        if m < t.len() && is_decimal_digit(t[m]) {
            lemma_digit_run_end_bounds(t, m);
            lemma_groups_end_nondigit(t, digit_run_end(t, m));
        }
    }
}

proof fn lemma_space_is_no_digit(c: char)
    ensures
        is_white_space(c) ==> !is_decimal_digit(c),
{
}

/// At a position where no further group follows, everything up to the last
/// position looked at is a non-digit.
proof fn lemma_extent_nondigit(t: Seq<char>, k: int)
    requires
        0 <= k,
        groups_end(t, k) == k,
        k < t.len() ==> !is_decimal_digit(t[k]),
    ensures
        k <= groups_extent(t, k),
        forall|y: int|
            k <= y <= groups_extent(t, k) && y < t.len() ==> !is_decimal_digit(#[trigger] t[y]),
{
    lemma_groups_extent_bounds(t, k);
    if 0 <= k < t.len() && t[k] == ',' {
        let m = space_run_end(t, k + 1);
        lemma_space_run_end_bounds(t, k + 1);
        if m < t.len() && is_decimal_digit(t[m]) {
            lemma_digit_run_end_bounds(t, m);
            lemma_groups_extent_bounds(t, digit_run_end(t, m));
        }
        assert(groups_extent(t, k) == m);
        assert forall|y: int|
            k <= y <= groups_extent(t, k) && y < t.len() implies !is_decimal_digit(
            #[trigger] t[y],
        ) by {
            if k < y < m {
                lemma_space_is_no_digit(t[y]);
            }
        }
    }
}

/// A text that starts with `t[0..z]` and goes on with the repair of `t`
/// from `z` agrees with `t` up to `x`, when `z` is `x + 1` capped at the end.
proof fn lemma_agree_prefix(t: Seq<char>, w: Seq<char>, x: int, z: int)
    requires
        0 <= x <= t.len(),
        z == (if x + 1 <= t.len() {
            x + 1
        } else {
            t.len() as int
        }),
        w == t.subrange(0, z) + fix_from(t, z),
    ensures
        agree_upto(t, 0, w, 0, x),
{
    assert(z == t.len() ==> fix_from(t, z) =~= Seq::<char>::empty());
    assert forall|k: int| 0 <= k <= x implies #[trigger] same_at(t, 0 + k, w, 0 + k) by {
        if k < z {
            assert(w[k] == t.subrange(0, z)[k]);
        }
    }
}

/// Positions `y` in `from..to` where the text holds no digit start no
/// sequence.
proof fn lemma_no_sequence_at_nondigits(t: Seq<char>, from: int, to: int)
    requires
        0 <= from <= to <= t.len(),
        forall|y: int| from <= y < to ==> !is_decimal_digit(#[trigger] t[y]),
    ensures
        forall|y: int| from <= y < to ==> #[trigger] sequence_end(t, y) == y,
{
    assert forall|y: int| from <= y < to implies #[trigger] sequence_end(t, y) == y by {
        assert(!is_decimal_digit(t[y]));
    }
}

/// A text whose repair starts with a collapsed sequence of at least seven
/// digits is stable when the repaired rest is.
proof fn lemma_stable_after_collapse(t: Seq<char>, e: int)
    requires
        0 < e <= t.len(),
        e == sequence_end(t, 0),
        ascii_digits(t.subrange(0, e)).len() >= 7,
        fix_digits(fix_from(t, e)) == fix_from(t, e),
    ensures
        fix_digits(fix_digits(t)) == fix_digits(t),
{
    let seg = t.subrange(0, e);
    let f = fix_from(t, e);
    let j = digit_run_end(t, 0);
    lemma_digit_run_end_bounds(t, 0);
    lemma_groups_extent_bounds(t, j);
    lemma_groups_fixpoint(t, j);
    lemma_groups_end_nondigit(t, j);
    lemma_extent_nondigit(t, e);
    lemma_groups_extent_bounds(t, e);
    let x = groups_extent(t, e);
    let z = if x + 1 <= t.len() {
        x + 1
    } else {
        t.len() as int
    };
    lemma_no_sequence_at_nondigits(t, e, z);
    lemma_prefix_kept(t, e, z);
    let d = ascii_digits(seg);
    lemma_ascii_digits_all_digits(seg);
    let n = d.len() as int;
    let w = d + f;
    assert(fix_digits(t) == w);
    assert(z == t.len() ==> fix_from(t, z) =~= Seq::<char>::empty());
    assert forall|k: int| 0 <= k <= x - e implies #[trigger] same_at(t, e + k, w, n + k) by {
        if e + k < z {
            assert(w[n + k] == f[k]);
            assert(f[k] == t.subrange(e, z)[k]);
        }
    }
    assert(same_at(t, e + 0, w, n + 0));
    lemma_groups_agree(t, e, w, n);
    assert(digit_run_end(w, n) == n);
    assert forall|y: int| 0 <= y < n implies #[trigger] sequence_end(w, y) == y by {
        assert(is_ascii_digit(d[y]));
        assert(w[y] == d[y]);
        assert forall|k: int| y <= k < n implies is_decimal_digit(#[trigger] w[k]) by {
            assert(is_ascii_digit(d[k]));
            assert(w[k] == d[k]);
        }
        lemma_digit_run_skip(w, y, n);
    }
    lemma_prefix_kept(w, 0, n);
    lemma_shift(w, n);
    assert(w.skip(n) =~= f);
    assert(w.subrange(0, n) =~= d);
}

/// A text whose repair starts with a sequence too short to collapse is
/// stable when the repaired rest is.
proof fn lemma_stable_after_short(t: Seq<char>, e: int)
    requires
        0 < e <= t.len(),
        e == sequence_end(t, 0),
        ascii_digits(t.subrange(0, e)).len() < 7,
        fix_digits(fix_from(t, e)) == fix_from(t, e),
    ensures
        fix_digits(fix_digits(t)) == fix_digits(t),
{
    let seg = t.subrange(0, e);
    let f = fix_from(t, e);
    let j = digit_run_end(t, 0);
    lemma_digit_run_end_bounds(t, 0);
    lemma_groups_extent_bounds(t, j);
    lemma_groups_fixpoint(t, j);
    lemma_groups_end_nondigit(t, j);
    lemma_extent_nondigit(t, e);
    lemma_groups_extent_bounds(t, e);
    let x = groups_extent(t, e);
    let z = if x + 1 <= t.len() {
        x + 1
    } else {
        t.len() as int
    };
    lemma_no_sequence_at_nondigits(t, e, z);
    lemma_prefix_kept(t, e, z);
    let w = seg + f;
    assert(fix_digits(t) == w);
    assert(w =~= t.subrange(0, z) + fix_from(t, z));
    lemma_agree_prefix(t, w, x, z);
    lemma_sequence_extent_bounds(t, 0);
    assert(sequence_extent(t, 0) == x);
    lemma_sequence_agree(t, 0, w, 0);
    lemma_shift(w, e);
    assert(w.skip(e) =~= f);
    assert(w.subrange(0, e) =~= seg);
}

/// A text whose first character is kept by the repair is stable when the
/// repaired rest is.
proof fn lemma_stable_after_kept(t: Seq<char>)
    requires
        0 < t.len(),
        sequence_end(t, 0) == 0,
        fix_digits(fix_from(t, 1)) == fix_from(t, 1),
    ensures
        fix_digits(fix_digits(t)) == fix_digits(t),
{
    let f = fix_from(t, 1);
    let w = seq![t[0]] + f;
    assert(fix_digits(t) == w);
    if is_decimal_digit(t[0]) {
        let j = digit_run_end(t, 0);
        lemma_digit_run_end_bounds(t, 0);
        lemma_groups_extent_bounds(t, j);
        assert(groups_end(t, j) == j);
        lemma_extent_nondigit(t, j);
        let x = groups_extent(t, j);
        let z = if x + 1 <= t.len() {
            x + 1
        } else {
            t.len() as int
        };
        assert forall|y: int| 1 <= y < z implies #[trigger] sequence_end(t, y) == y by {
            if y < j {
                lemma_digit_run_skip(t, y, j);
                lemma_digit_run_skip(t, 0, j);
            } else {
                assert(!is_decimal_digit(t[y]));
            }
        }
        lemma_prefix_kept(t, 1, z);
        assert(w =~= t.subrange(0, z) + fix_from(t, z));
        lemma_agree_prefix(t, w, x, z);
        lemma_sequence_agree(t, 0, w, 0);
    }
    assert(sequence_end(w, 0) == 0);
    lemma_shift(w, 1);
    assert(w.skip(1) =~= f);
}

/// Repairing a repaired text changes nothing.
pub proof fn law_repair_is_stable(t: Seq<char>)
    ensures
        fix_digits(fix_digits(t)) == fix_digits(t),
    decreases t.len(),
{
    if t.len() == 0 {
        assert(fix_digits(t) =~= Seq::<char>::empty());
    } else {
        lemma_sequence_end_bounds(t, 0);
        let e = sequence_end(t, 0);
        if e > 0 {
            lemma_shift(t, e);
            law_repair_is_stable(t.skip(e));
            if ascii_digits(t.subrange(0, e)).len() >= 7 {
                lemma_stable_after_collapse(t, e);
            } else {
                lemma_stable_after_short(t, e);
            }
        } else {
            lemma_shift(t, 1);
            law_repair_is_stable(t.skip(1));
            lemma_stable_after_kept(t);
        }
    }
}

} // verus!
