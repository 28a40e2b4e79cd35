//! Repair of spoken digit sequences. Speech recognition tends to render a
//! dictated number such as a phone number as comma-separated groups
//! ("555, 123, 4567"); runs of digit groups joined by commas (with optional
//! white space after each comma) that hold at least seven ASCII digits are
//! collapsed into the bare digits. Shorter runs are left as they are.
//!
//! The grammar of a run is the pattern `\d+(?:,\s*\d+)+` with Unicode
//! classes: `\d` is any decimal digit (general category Nd), `\s` any
//! `White_Space` character. Runs are found leftmost first, each as long as
//! possible, without overlap.
use vstd::prelude::*;
use crate::text::{chars_of, is_ascii_digit, is_white_space, push_range, string_of, white_space};

verus! {

/// Unicode general category Nd (decimal digit), Unicode 16.0.
pub open spec fn is_decimal_digit(c: char) -> bool {
    ||| ('\u{30}' <= c && c <= '\u{39}')
    ||| ('\u{660}' <= c && c <= '\u{669}')
    ||| ('\u{6f0}' <= c && c <= '\u{6f9}')
    ||| ('\u{7c0}' <= c && c <= '\u{7c9}')
    ||| ('\u{966}' <= c && c <= '\u{96f}')
    ||| ('\u{9e6}' <= c && c <= '\u{9ef}')
    ||| ('\u{a66}' <= c && c <= '\u{a6f}')
    ||| ('\u{ae6}' <= c && c <= '\u{aef}')
    ||| ('\u{b66}' <= c && c <= '\u{b6f}')
    ||| ('\u{be6}' <= c && c <= '\u{bef}')
    ||| ('\u{c66}' <= c && c <= '\u{c6f}')
    ||| ('\u{ce6}' <= c && c <= '\u{cef}')
    ||| ('\u{d66}' <= c && c <= '\u{d6f}')
    ||| ('\u{de6}' <= c && c <= '\u{def}')
    ||| ('\u{e50}' <= c && c <= '\u{e59}')
    ||| ('\u{ed0}' <= c && c <= '\u{ed9}')
    ||| ('\u{f20}' <= c && c <= '\u{f29}')
    ||| ('\u{1040}' <= c && c <= '\u{1049}')
    ||| ('\u{1090}' <= c && c <= '\u{1099}')
    ||| ('\u{17e0}' <= c && c <= '\u{17e9}')
    ||| ('\u{1810}' <= c && c <= '\u{1819}')
    ||| ('\u{1946}' <= c && c <= '\u{194f}')
    ||| ('\u{19d0}' <= c && c <= '\u{19d9}')
    ||| ('\u{1a80}' <= c && c <= '\u{1a89}')
    ||| ('\u{1a90}' <= c && c <= '\u{1a99}')
    ||| ('\u{1b50}' <= c && c <= '\u{1b59}')
    ||| ('\u{1bb0}' <= c && c <= '\u{1bb9}')
    ||| ('\u{1c40}' <= c && c <= '\u{1c49}')
    ||| ('\u{1c50}' <= c && c <= '\u{1c59}')
    ||| ('\u{a620}' <= c && c <= '\u{a629}')
    ||| ('\u{a8d0}' <= c && c <= '\u{a8d9}')
    ||| ('\u{a900}' <= c && c <= '\u{a909}')
    ||| ('\u{a9d0}' <= c && c <= '\u{a9d9}')
    ||| ('\u{a9f0}' <= c && c <= '\u{a9f9}')
    ||| ('\u{aa50}' <= c && c <= '\u{aa59}')
    ||| ('\u{abf0}' <= c && c <= '\u{abf9}')
    ||| ('\u{ff10}' <= c && c <= '\u{ff19}')
    ||| ('\u{104a0}' <= c && c <= '\u{104a9}')
    ||| ('\u{10d30}' <= c && c <= '\u{10d39}')
    ||| ('\u{10d40}' <= c && c <= '\u{10d49}')
    ||| ('\u{11066}' <= c && c <= '\u{1106f}')
    ||| ('\u{110f0}' <= c && c <= '\u{110f9}')
    ||| ('\u{11136}' <= c && c <= '\u{1113f}')
    ||| ('\u{111d0}' <= c && c <= '\u{111d9}')
    ||| ('\u{112f0}' <= c && c <= '\u{112f9}')
    ||| ('\u{11450}' <= c && c <= '\u{11459}')
    ||| ('\u{114d0}' <= c && c <= '\u{114d9}')
    ||| ('\u{11650}' <= c && c <= '\u{11659}')
    ||| ('\u{116c0}' <= c && c <= '\u{116c9}')
    ||| ('\u{116d0}' <= c && c <= '\u{116e3}')
    ||| ('\u{11730}' <= c && c <= '\u{11739}')
    ||| ('\u{118e0}' <= c && c <= '\u{118e9}')
    ||| ('\u{11950}' <= c && c <= '\u{11959}')
    ||| ('\u{11bf0}' <= c && c <= '\u{11bf9}')
    ||| ('\u{11c50}' <= c && c <= '\u{11c59}')
    ||| ('\u{11d50}' <= c && c <= '\u{11d59}')
    ||| ('\u{11da0}' <= c && c <= '\u{11da9}')
    ||| ('\u{11f50}' <= c && c <= '\u{11f59}')
    ||| ('\u{16130}' <= c && c <= '\u{16139}')
    ||| ('\u{16a60}' <= c && c <= '\u{16a69}')
    ||| ('\u{16ac0}' <= c && c <= '\u{16ac9}')
    ||| ('\u{16b50}' <= c && c <= '\u{16b59}')
    ||| ('\u{16d70}' <= c && c <= '\u{16d79}')
    ||| ('\u{1ccf0}' <= c && c <= '\u{1ccf9}')
    ||| ('\u{1d7ce}' <= c && c <= '\u{1d7ff}')
    ||| ('\u{1e140}' <= c && c <= '\u{1e149}')
    ||| ('\u{1e2f0}' <= c && c <= '\u{1e2f9}')
    ||| ('\u{1e4f0}' <= c && c <= '\u{1e4f9}')
    ||| ('\u{1e5f1}' <= c && c <= '\u{1e5fa}')
    ||| ('\u{1e950}' <= c && c <= '\u{1e959}')
    ||| ('\u{1fbf0}' <= c && c <= '\u{1fbf9}')
}

pub fn decimal_digit(c: char) -> (b: bool)
    ensures
        b == is_decimal_digit(c),
{
    ('\u{30}' <= c && c <= '\u{39}')
        || ('\u{660}' <= c && c <= '\u{669}')
        || ('\u{6f0}' <= c && c <= '\u{6f9}')
        || ('\u{7c0}' <= c && c <= '\u{7c9}')
        || ('\u{966}' <= c && c <= '\u{96f}')
        || ('\u{9e6}' <= c && c <= '\u{9ef}')
        || ('\u{a66}' <= c && c <= '\u{a6f}')
        || ('\u{ae6}' <= c && c <= '\u{aef}')
        || ('\u{b66}' <= c && c <= '\u{b6f}')
        || ('\u{be6}' <= c && c <= '\u{bef}')
        || ('\u{c66}' <= c && c <= '\u{c6f}')
        || ('\u{ce6}' <= c && c <= '\u{cef}')
        || ('\u{d66}' <= c && c <= '\u{d6f}')
        || ('\u{de6}' <= c && c <= '\u{def}')
        || ('\u{e50}' <= c && c <= '\u{e59}')
        || ('\u{ed0}' <= c && c <= '\u{ed9}')
        || ('\u{f20}' <= c && c <= '\u{f29}')
        || ('\u{1040}' <= c && c <= '\u{1049}')
        || ('\u{1090}' <= c && c <= '\u{1099}')
        || ('\u{17e0}' <= c && c <= '\u{17e9}')
        || ('\u{1810}' <= c && c <= '\u{1819}')
        || ('\u{1946}' <= c && c <= '\u{194f}')
        || ('\u{19d0}' <= c && c <= '\u{19d9}')
        || ('\u{1a80}' <= c && c <= '\u{1a89}')
        || ('\u{1a90}' <= c && c <= '\u{1a99}')
        || ('\u{1b50}' <= c && c <= '\u{1b59}')
        || ('\u{1bb0}' <= c && c <= '\u{1bb9}')
        || ('\u{1c40}' <= c && c <= '\u{1c49}')
        || ('\u{1c50}' <= c && c <= '\u{1c59}')
        || ('\u{a620}' <= c && c <= '\u{a629}')
        || ('\u{a8d0}' <= c && c <= '\u{a8d9}')
        || ('\u{a900}' <= c && c <= '\u{a909}')
        || ('\u{a9d0}' <= c && c <= '\u{a9d9}')
        || ('\u{a9f0}' <= c && c <= '\u{a9f9}')
        || ('\u{aa50}' <= c && c <= '\u{aa59}')
        || ('\u{abf0}' <= c && c <= '\u{abf9}')
        || ('\u{ff10}' <= c && c <= '\u{ff19}')
        || ('\u{104a0}' <= c && c <= '\u{104a9}')
        || ('\u{10d30}' <= c && c <= '\u{10d39}')
        || ('\u{10d40}' <= c && c <= '\u{10d49}')
        || ('\u{11066}' <= c && c <= '\u{1106f}')
        || ('\u{110f0}' <= c && c <= '\u{110f9}')
        || ('\u{11136}' <= c && c <= '\u{1113f}')
        || ('\u{111d0}' <= c && c <= '\u{111d9}')
        || ('\u{112f0}' <= c && c <= '\u{112f9}')
        || ('\u{11450}' <= c && c <= '\u{11459}')
        || ('\u{114d0}' <= c && c <= '\u{114d9}')
        || ('\u{11650}' <= c && c <= '\u{11659}')
        || ('\u{116c0}' <= c && c <= '\u{116c9}')
        || ('\u{116d0}' <= c && c <= '\u{116e3}')
        || ('\u{11730}' <= c && c <= '\u{11739}')
        || ('\u{118e0}' <= c && c <= '\u{118e9}')
        || ('\u{11950}' <= c && c <= '\u{11959}')
        || ('\u{11bf0}' <= c && c <= '\u{11bf9}')
        || ('\u{11c50}' <= c && c <= '\u{11c59}')
        || ('\u{11d50}' <= c && c <= '\u{11d59}')
        || ('\u{11da0}' <= c && c <= '\u{11da9}')
        || ('\u{11f50}' <= c && c <= '\u{11f59}')
        || ('\u{16130}' <= c && c <= '\u{16139}')
        || ('\u{16a60}' <= c && c <= '\u{16a69}')
        || ('\u{16ac0}' <= c && c <= '\u{16ac9}')
        || ('\u{16b50}' <= c && c <= '\u{16b59}')
        || ('\u{16d70}' <= c && c <= '\u{16d79}')
        || ('\u{1ccf0}' <= c && c <= '\u{1ccf9}')
        || ('\u{1d7ce}' <= c && c <= '\u{1d7ff}')
        || ('\u{1e140}' <= c && c <= '\u{1e149}')
        || ('\u{1e2f0}' <= c && c <= '\u{1e2f9}')
        || ('\u{1e4f0}' <= c && c <= '\u{1e4f9}')
        || ('\u{1e5f1}' <= c && c <= '\u{1e5fa}')
        || ('\u{1e950}' <= c && c <= '\u{1e959}')
        || ('\u{1fbf0}' <= c && c <= '\u{1fbf9}')
}

/// End of the run of decimal digits that starts at `i` (`i` itself when
/// `t[i]` is not a digit).
pub open spec fn digit_run_end(t: Seq<char>, i: int) -> int
    decreases t.len() - i,
{
    if 0 <= i < t.len() && is_decimal_digit(t[i]) {
        digit_run_end(t, i + 1)
    } else {
        i
    }
}

/// End of the run of white space that starts at `i`.
pub open spec fn space_run_end(t: Seq<char>, i: int) -> int
    decreases t.len() - i,
{
    if 0 <= i < t.len() && is_white_space(t[i]) {
        space_run_end(t, i + 1)
    } else {
        i
    }
}

pub proof fn lemma_digit_run_end_bounds(t: Seq<char>, i: int)
    ensures
        i <= digit_run_end(t, i),
        0 <= i <= t.len() ==> digit_run_end(t, i) <= t.len(),
        forall|k: int| i <= k < digit_run_end(t, i) ==> is_decimal_digit(#[trigger] t[k]),
        0 <= digit_run_end(t, i) < t.len() ==> !is_decimal_digit(t[digit_run_end(t, i)]),
    decreases t.len() - i,
{
    if 0 <= i < t.len() && is_decimal_digit(t[i]) {
        lemma_digit_run_end_bounds(t, i + 1);
    }
}

pub proof fn lemma_space_run_end_bounds(t: Seq<char>, i: int)
    ensures
        i <= space_run_end(t, i),
        0 <= i <= t.len() ==> space_run_end(t, i) <= t.len(),
        forall|k: int| i <= k < space_run_end(t, i) ==> is_white_space(#[trigger] t[k]),
        0 <= space_run_end(t, i) < t.len() ==> !is_white_space(t[space_run_end(t, i)]),
    decreases t.len() - i,
{
    if 0 <= i < t.len() && is_white_space(t[i]) {
        lemma_space_run_end_bounds(t, i + 1);
    }
}

/// Starting right after a digit run ending at `k`, the end of the longest
/// chain of `,\\s*\\d+` groups.
pub open spec fn groups_end(t: Seq<char>, k: int) -> int
    decreases t.len() - k,
{
    if 0 <= k < t.len() && t[k] == ',' {
        let m = space_run_end(t, k + 1);
        if m < t.len() && is_decimal_digit(t[m]) {
            proof {
                lemma_space_run_end_bounds(t, k + 1);
                lemma_digit_run_end_bounds(t, m);
            }
            groups_end(t, digit_run_end(t, m))
        } else {
            k
        }
    } else {
        k
    }
}

pub proof fn lemma_groups_end_bounds(t: Seq<char>, k: int)
    requires
        0 <= k <= t.len(),
    ensures
        k <= groups_end(t, k) <= t.len(),
    decreases t.len() - k,
{
    if 0 <= k < t.len() && t[k] == ',' {
        let m = space_run_end(t, k + 1);
        lemma_space_run_end_bounds(t, k + 1);
        if m < t.len() && is_decimal_digit(t[m]) {
            lemma_digit_run_end_bounds(t, m);
            lemma_groups_end_bounds(t, digit_run_end(t, m));
        }
    }
}

/// End of the digit sequence that starts at `i`, or `i` when none does: a
/// digit run followed by at least one `,\\s*\\d+` group.
pub open spec fn sequence_end(t: Seq<char>, i: int) -> int {
    if 0 <= i < t.len() && is_decimal_digit(t[i]) {
        let j = digit_run_end(t, i);
        let e = groups_end(t, j);
        if e > j {
            e
        } else {
            i
        }
    } else {
        i
    }
}

pub proof fn lemma_sequence_end_bounds(t: Seq<char>, i: int)
    requires
        0 <= i <= t.len(),
    ensures
        i <= sequence_end(t, i) <= t.len(),
{
    if 0 <= i < t.len() && is_decimal_digit(t[i]) {
        lemma_digit_run_end_bounds(t, i);
        lemma_groups_end_bounds(t, digit_run_end(t, i));
    }
}

/// The ASCII digits of `s`, in order.
pub open spec fn ascii_digits(s: Seq<char>) -> Seq<char>
    decreases s.len(),
{
    if s.len() == 0 {
        Seq::empty()
    } else if is_ascii_digit(s.last()) {
        ascii_digits(s.drop_last()).push(s.last())
    } else {
        ascii_digits(s.drop_last())
    }
}

/// What a matched sequence becomes: its ASCII digits when there are at
/// least seven of them, otherwise the sequence as it was.
pub open spec fn collapse(seg: Seq<char>) -> Seq<char> {
    if ascii_digits(seg).len() >= 7 {
        ascii_digits(seg)
    } else {
        seg
    }
}

/// The text from `i` on with every digit sequence collapsed.
pub open spec fn fix_from(t: Seq<char>, i: int) -> Seq<char>
    decreases t.len() - i,
{
    if i < 0 || i >= t.len() {
        Seq::empty()
    } else if sequence_end(t, i) > i {
        proof {
            lemma_sequence_end_bounds(t, i);
        }
        collapse(t.subrange(i, sequence_end(t, i))) + fix_from(t, sequence_end(t, i))
    } else {
        seq![t[i]] + fix_from(t, i + 1)
    }
}

/// `t` with every digit sequence collapsed.
pub open spec fn fix_digits(t: Seq<char>) -> Seq<char> {
    fix_from(t, 0)
}

pub(crate) proof fn lemma_digit_run_skip(t: Seq<char>, i: int, j: int)
    requires
        0 <= i <= j <= t.len(),
        forall|k: int| i <= k < j ==> is_decimal_digit(#[trigger] t[k]),
    ensures
        digit_run_end(t, i) == digit_run_end(t, j),
    decreases j - i,
{
    if i < j {
        lemma_digit_run_skip(t, i + 1, j);
    }
}

proof fn lemma_space_run_skip(t: Seq<char>, i: int, j: int)
    requires
        0 <= i <= j <= t.len(),
        forall|k: int| i <= k < j ==> is_white_space(#[trigger] t[k]),
    ensures
        space_run_end(t, i) == space_run_end(t, j),
    decreases j - i,
{
    if i < j {
        lemma_space_run_skip(t, i + 1, j);
    }
}

fn digit_run(t: &Vec<char>, i: usize) -> (j: usize)
    requires
        i <= t.len(),
    ensures
        j as int == digit_run_end(t@, i as int),
        i <= j <= t.len(),
{
    let mut j = i;
    while j < t.len() && decimal_digit(t[j])
        invariant
            i <= j <= t.len(),
            forall|k: int| i <= k < j ==> is_decimal_digit(#[trigger] t@[k]),
        decreases t.len() - j,
    {
        j = j + 1;
    }
    proof {
        lemma_digit_run_skip(t@, i as int, j as int);
    }
    j
}

fn space_run(t: &Vec<char>, i: usize) -> (j: usize)
    requires
        i <= t.len(),
    ensures
        j as int == space_run_end(t@, i as int),
        i <= j <= t.len(),
{
    let mut j = i;
    while j < t.len() && white_space(t[j])
        invariant
            i <= j <= t.len(),
            forall|k: int| i <= k < j ==> is_white_space(#[trigger] t@[k]),
        decreases t.len() - j,
    {
        j = j + 1;
    }
    proof {
        lemma_space_run_skip(t@, i as int, j as int);
    }
    j
}

fn sequence_end_at(t: &Vec<char>, i: usize) -> (e: usize)
    requires
        i < t.len(),
    ensures
        e as int == sequence_end(t@, i as int),
{
    if !decimal_digit(t[i]) {
        return i;
    }
    let j = digit_run(t, i);
    let mut k = j;
    loop
        invariant
            j <= k <= t.len(),
            groups_end(t@, k as int) == groups_end(t@, j as int),
        ensures
            j <= k <= t.len(),
            groups_end(t@, k as int) == groups_end(t@, j as int),
            groups_end(t@, k as int) == k,
        decreases t.len() - k,
    {
        if k < t.len() && t[k] == ',' {
            let m = space_run(t, k + 1);
            if m < t.len() && decimal_digit(t[m]) {
                proof {
                    lemma_digit_run_end_bounds(t@, m as int);
                }
                k = digit_run(t, m);
            } else {
                break;
            }
        } else {
            break;
        }
    }
    if k > j {
        k
    } else {
        i
    }
}

fn collapse_into(out: &mut Vec<char>, t: &Vec<char>, from: usize, to: usize)
    requires
        from <= to <= t.len(),
    ensures
        final(out)@ == old(out)@ + collapse(t@.subrange(from as int, to as int)),
{
    let ghost seg = t@.subrange(from as int, to as int);
    let mut digits: Vec<char> = Vec::new();
    let mut k = from;
    while k < to
        invariant
            from <= k <= to <= t.len(),
            seg == t@.subrange(from as int, to as int),
            digits@ == ascii_digits(t@.subrange(from as int, k as int)),
        decreases to - k,
    {
        let c = t[k];
        proof {
            assert(t@.subrange(from as int, k + 1).drop_last() =~= t@.subrange(
                from as int,
                k as int,
            ));
        }
        if '0' <= c && c <= '9' {
            digits.push(c);
        }
        k = k + 1;
    }
    if digits.len() >= 7 {
        let mut i: usize = 0;
        let ghost start = out@;
        while i < digits.len()
            invariant
                i <= digits.len(),
                out@ == start + digits@.take(i as int),
            decreases digits.len() - i,
        {
            out.push(digits[i]);
            i = i + 1;
            assert(out@ =~= start + digits@.take(i as int));
        }
        assert(digits@.take(digits.len() as int) =~= digits@);
    } else {
        push_range(out, t, from, to);
    }
}

/// Collapses every comma-separated run of digit groups that holds at least
/// seven ASCII digits into the bare digits, leaving all other text as it
/// was.
pub fn fix_digit_sequences(text: &str) -> (res: String)
    ensures
        res@ == fix_digits(text@),
{
    let t = chars_of(text);
    let mut out: Vec<char> = Vec::new();
    let mut i: usize = 0;
    while i < t.len()
        invariant
            i <= t.len(),
            out@ + fix_from(t@, i as int) == fix_digits(t@),
        decreases t.len() - i,
    {
        let e = sequence_end_at(&t, i);
        proof {
            lemma_sequence_end_bounds(t@, i as int);
        }
        let ghost before = out@;
        if e > i {
            collapse_into(&mut out, &t, i, e);
            assert(out@ + fix_from(t@, e as int) =~= before + fix_from(t@, i as int));
            i = e;
        } else {
            out.push(t[i]);
            assert(out@ + fix_from(t@, i + 1) =~= before + fix_from(t@, i as int));
            i = i + 1;
        }
    }
    assert(fix_from(t@, i as int) =~= Seq::<char>::empty());
    assert(out@ =~= fix_digits(t@));
    string_of(&out)
}

// ---------------------------------------------------------------------
// Laws
// ---------------------------------------------------------------------

proof fn lemma_comma_free_from(t: Seq<char>, i: int)
    requires
        0 <= i <= t.len(),
        forall|k: int| 0 <= k < t.len() ==> t[k] != ',',
    ensures
        fix_from(t, i) == t.subrange(i, t.len() as int),
    decreases t.len() - i,
{
    if i < t.len() {
        if is_decimal_digit(t[i]) {
            lemma_digit_run_end_bounds(t, i);
            let j = digit_run_end(t, i);
            assert(groups_end(t, j) == j);
        }
        assert(sequence_end(t, i) == i);
        lemma_comma_free_from(t, i + 1);
        assert(t.subrange(i, t.len() as int) =~= seq![t[i]] + t.subrange(i + 1, t.len() as int));
    } else {
        assert(t.subrange(i, t.len() as int) =~= Seq::<char>::empty());
    }
}

/// Text without a comma is never changed.
pub proof fn law_comma_free_text_unchanged(t: Seq<char>)
    requires
        forall|k: int| 0 <= k < t.len() ==> t[k] != ',',
    ensures
        fix_digits(t) == t,
{
    lemma_comma_free_from(t, 0);
    assert(t.subrange(0, t.len() as int) =~= t);
}

proof fn lemma_ascii_digits_len(s: Seq<char>)
    ensures
        ascii_digits(s).len() <= s.len(),
    decreases s.len(),
{
    if s.len() > 0 {
        lemma_ascii_digits_len(s.drop_last());
    }
}

proof fn lemma_fix_from_len(t: Seq<char>, i: int)
    requires
        0 <= i <= t.len(),
    ensures
        fix_from(t, i).len() <= t.len() - i,
    decreases t.len() - i,
{
    if i < t.len() {
        lemma_sequence_end_bounds(t, i);
        let e = sequence_end(t, i);
        if e > i {
            lemma_ascii_digits_len(t.subrange(i, e));
            lemma_fix_from_len(t, e);
        } else {
            lemma_fix_from_len(t, i + 1);
        }
    }
}

/// Collapsing only ever removes characters: the result is never longer than
/// the text.
pub proof fn law_never_longer(t: Seq<char>)
    ensures
        fix_digits(t).len() <= t.len(),
{
    lemma_fix_from_len(t, 0);
}

proof fn lemma_ascii_digits_append(a: Seq<char>, b: Seq<char>)
    ensures
        ascii_digits(a + b) == ascii_digits(a) + ascii_digits(b),
    decreases b.len(),
{
    if b.len() == 0 {
        assert(a + b =~= a);
        assert(ascii_digits(a) + ascii_digits(b) =~= ascii_digits(a));
    } else {
        lemma_ascii_digits_append(a, b.drop_last());
        assert((a + b).drop_last() =~= a + b.drop_last());
        assert((a + b).last() == b.last());
        if is_ascii_digit(b.last()) {
            assert(ascii_digits(a) + ascii_digits(b) =~= (ascii_digits(a) + ascii_digits(
                b.drop_last(),
            )).push(b.last()));
        }
    }
}

pub(crate) proof fn lemma_ascii_digits_all_digits(s: Seq<char>)
    ensures
        forall|k: int| 0 <= k < ascii_digits(s).len() ==> is_ascii_digit(#[trigger] ascii_digits(s)[k]),
    decreases s.len(),
{
    if s.len() > 0 {
        lemma_ascii_digits_all_digits(s.drop_last());
        let p = ascii_digits(s.drop_last());
        if is_ascii_digit(s.last()) {
            assert forall|k: int| 0 <= k < p.push(s.last()).len() implies is_ascii_digit(
                #[trigger] p.push(s.last())[k],
            ) by {
                if k < p.len() {
                    assert(p.push(s.last())[k] == p[k]);
                }
            }
        }
    }
}

proof fn lemma_ascii_digits_of_digits(s: Seq<char>)
    requires
        forall|k: int| 0 <= k < s.len() ==> is_ascii_digit(#[trigger] s[k]),
    ensures
        ascii_digits(s) == s,
    decreases s.len(),
{
    if s.len() > 0 {
        lemma_ascii_digits_of_digits(s.drop_last());
        assert(s.drop_last().push(s.last()) =~= s);
    }
}

proof fn lemma_fix_from_keeps_digits(t: Seq<char>, i: int)
    requires
        0 <= i <= t.len(),
    ensures
        ascii_digits(fix_from(t, i)) == ascii_digits(t.subrange(i, t.len() as int)),
    decreases t.len() - i,
{
    if i < t.len() {
        lemma_sequence_end_bounds(t, i);
        let e = sequence_end(t, i);
        if e > i {
            lemma_fix_from_keeps_digits(t, e);
            let seg = t.subrange(i, e);
            lemma_ascii_digits_append(collapse(seg), fix_from(t, e));
            assert(t.subrange(i, t.len() as int) =~= seg + t.subrange(e, t.len() as int));
            lemma_ascii_digits_append(seg, t.subrange(e, t.len() as int));
            if ascii_digits(seg).len() >= 7 {
                lemma_ascii_digits_all_digits(seg);
                lemma_ascii_digits_of_digits(ascii_digits(seg));
            }
        } else {
            lemma_fix_from_keeps_digits(t, i + 1);
            lemma_ascii_digits_append(seq![t[i]], fix_from(t, i + 1));
            assert(t.subrange(i, t.len() as int) =~= seq![t[i]] + t.subrange(
                i + 1,
                t.len() as int,
            ));
            lemma_ascii_digits_append(seq![t[i]], t.subrange(i + 1, t.len() as int));
        }
    } else {
        assert(t.subrange(i, t.len() as int) =~= Seq::<char>::empty());
    }
}

/// Digit repair only removes punctuation, white space and non-ASCII digits
/// from between the digits: the ASCII digits of the text all stay, in order.
pub proof fn law_ascii_digits_are_kept(t: Seq<char>)
    ensures
        ascii_digits(fix_digits(t)) == ascii_digits(t),
{
    lemma_fix_from_keeps_digits(t, 0);
    assert(t.subrange(0, t.len() as int) =~= t);
}

} // verus!
