//! User-defined text corrections: literal find-and-replace rules applied to
//! every transcript, matching the find text without regard to ASCII case.
use vstd::prelude::*;
use crate::text::{
    ascii_lower, chars_of, find_from, lower_all, occurs_at, push_all, push_range, string_of,
};

verus! {

/// One correction rule: every occurrence of `find` (ASCII case ignored) is
/// replaced by `replace`. A rule with an empty `find` does nothing.
#[derive(Debug)]
pub struct ReplacementRule {
    pub find: String,
    pub replace: String,
}

impl Clone for ReplacementRule {
    fn clone(&self) -> (r: Self)
        ensures
            r.find@ == self.find@,
            r.replace@ == self.replace@,
    {
        ReplacementRule { find: self.find.clone(), replace: self.replace.clone() }
    }
}

/// `f` (non-empty) occurs in `t` at index `i` when both are lowered to ASCII
/// lowercase.
pub open spec fn matches_ci_at(t: Seq<char>, f: Seq<char>, i: int) -> bool {
    f.len() > 0 && occurs_at(ascii_lower(t), ascii_lower(f), i)
}

/// The text from index `i` on, with the leftmost non-overlapping
/// case-insensitive occurrences of `f` replaced by `r`.
pub open spec fn replace_ci_from(t: Seq<char>, f: Seq<char>, r: Seq<char>, i: int) -> Seq<char>
    decreases t.len() - i,
{
    if i < 0 || i >= t.len() {
        Seq::empty()
    } else if matches_ci_at(t, f, i) {
        r + replace_ci_from(t, f, r, i + f.len())
    } else {
        seq![t[i]] + replace_ci_from(t, f, r, i + 1)
    }
}

/// `t` with every leftmost non-overlapping case-insensitive occurrence of
/// `f` replaced by `r`, scanning from the start.
pub open spec fn replace_ci(t: Seq<char>, f: Seq<char>, r: Seq<char>) -> Seq<char> {
    replace_ci_from(t, f, r, 0)
}

/// The rules applied in order, each to the result of the ones before it;
/// rules with an empty `find` are skipped.
pub open spec fn apply_rules(t: Seq<char>, rules: Seq<ReplacementRule>) -> Seq<char>
    decreases rules.len(),
{
    if rules.len() == 0 {
        t
    } else {
        let prev = apply_rules(t, rules.drop_last());
        let rule = rules.last();
        if rule.find@.len() == 0 {
            prev
        } else {
            replace_ci(prev, rule.find@, rule.replace@)
        }
    }
}

proof fn lemma_lower_len(s: Seq<char>)
    ensures
        ascii_lower(s).len() == s.len(),
{
}

/// Unrolls `replace_ci_from` over a stretch with no match up to the next
/// match at `pos`.
proof fn lemma_replace_step(t: Seq<char>, f: Seq<char>, r: Seq<char>, i: int, pos: int)
    requires
        0 <= i <= pos,
        matches_ci_at(t, f, pos),
        forall|j: int| i <= j < pos ==> !matches_ci_at(t, f, j),
    ensures
        replace_ci_from(t, f, r, i) == t.subrange(i, pos) + r + replace_ci_from(
            t,
            f,
            r,
            pos + f.len(),
        ),
    decreases pos - i,
{
    lemma_lower_len(t);
    if i < pos {
        lemma_replace_step(t, f, r, i + 1, pos);
        assert(t.subrange(i, pos) =~= seq![t[i]] + t.subrange(i + 1, pos));
    } else {
        assert(t.subrange(i, pos) =~= Seq::<char>::empty());
    }
}

/// Unrolls `replace_ci_from` over a tail with no match at all.
proof fn lemma_replace_tail(t: Seq<char>, f: Seq<char>, r: Seq<char>, i: int)
    requires
        0 <= i <= t.len(),
        forall|j: int| i <= j ==> !matches_ci_at(t, f, j),
    ensures
        replace_ci_from(t, f, r, i) == t.subrange(i, t.len() as int),
    decreases t.len() - i,
{
    if i < t.len() {
        lemma_replace_tail(t, f, r, i + 1);
        assert(t.subrange(i, t.len() as int) =~= seq![t[i]] + t.subrange(i + 1, t.len() as int));
    } else {
        assert(t.subrange(i, t.len() as int) =~= Seq::<char>::empty());
    }
}

/// Replacement on character vectors; `f` must be non-empty.
fn replace_ci_chars(t: &Vec<char>, f: &Vec<char>, r: &Vec<char>) -> (out: Vec<char>)
    requires
        f@.len() > 0,
    ensures
        out@ == replace_ci(t@, f@, r@),
{
    let lower_text = lower_all(t);
    let lower_find = lower_all(f);
    proof {
        lemma_lower_len(t@);
        lemma_lower_len(f@);
    }
    let mut out: Vec<char> = Vec::new();
    let mut last_end: usize = 0;
    loop
        invariant
            lower_text@ == ascii_lower(t@),
            lower_find@ == ascii_lower(f@),
            lower_text@.len() == t@.len(),
            lower_find@.len() == f@.len(),
            f@.len() > 0,
            last_end <= t.len(),
            out@ + replace_ci_from(t@, f@, r@, last_end as int) == replace_ci(t@, f@, r@),
        decreases t.len() - last_end,
    {
        match find_from(&lower_text, &lower_find, last_end) {
            Some(start) => {
                let end = start + f.len();
                proof {
                    assert forall|j: int| last_end <= j < start implies !matches_ci_at(
                        t@,
                        f@,
                        j,
                    ) by {}
                    lemma_replace_step(t@, f@, r@, last_end as int, start as int);
                }
                let ghost before = out@;
                push_range(&mut out, t, last_end, start);
                push_all(&mut out, r);
                proof {
                    assert(out@ + replace_ci_from(t@, f@, r@, end as int) =~= before
                        + replace_ci_from(t@, f@, r@, last_end as int));
                }
                last_end = end;
            },
            None => {
                proof {
                    assert forall|j: int| last_end <= j implies !matches_ci_at(t@, f@, j) by {}
                    lemma_replace_tail(t@, f@, r@, last_end as int);
                }
                let ghost before = out@;
                push_range(&mut out, t, last_end, t.len());
                proof {
                    assert(replace_ci_from(t@, f@, r@, t.len() as int) =~= Seq::<char>::empty());
                    assert(out@ =~= before + replace_ci_from(t@, f@, r@, last_end as int));
                }
                return out;
            },
        }
    }
}

/// Replaces every occurrence of `find` in `text`, ignoring ASCII case, with
/// `replace`. Occurrences are taken leftmost first and do not overlap; the
/// text between them is kept as it was.
pub fn replace_case_insensitive(text: &str, find: &str, replace: &str) -> (res: String)
    requires
        find@.len() > 0,
    ensures
        res@ == replace_ci(text@, find@, replace@),
{
    let t = chars_of(text);
    let f = chars_of(find);
    let r = chars_of(replace);
    let out = replace_ci_chars(&t, &f, &r);
    string_of(&out)
}

/// Applies the correction rules in order; a rule whose `find` is empty is
/// skipped.
pub fn apply_replacements(text: &str, rules: &[ReplacementRule]) -> (res: String)
    ensures
        res@ == apply_rules(text@, rules@),
{
    let mut result = chars_of(text);
    let mut i: usize = 0;
    while i < rules.len()
        invariant
            i <= rules@.len(),
            result@ == apply_rules(text@, rules@.take(i as int)),
        decreases rules.len() - i,
    {
        let rule = &rules[i];
        proof {
            assert(rules@.take(i + 1).drop_last() =~= rules@.take(i as int));
        }
        let f = chars_of(rule.find.as_str());
        if f.len() > 0 {
            let r = chars_of(rule.replace.as_str());
            result = replace_ci_chars(&result, &f, &r);
        }
        i = i + 1;
    }
    assert(rules@.take(rules@.len() as int) =~= rules@);
    string_of(&result)
}

// ---------------------------------------------------------------------
// Laws
// ---------------------------------------------------------------------

proof fn lemma_replace_congruent(t: Seq<char>, f1: Seq<char>, f2: Seq<char>, r: Seq<char>, i: int)
    requires
        ascii_lower(f1) == ascii_lower(f2),
    ensures
        replace_ci_from(t, f1, r, i) == replace_ci_from(t, f2, r, i),
    decreases t.len() - i,
{
    lemma_lower_len(f1);
    lemma_lower_len(f2);
    if 0 <= i < t.len() {
        if matches_ci_at(t, f1, i) {
            lemma_replace_congruent(t, f1, f2, r, i + f1.len());
        } else {
            lemma_replace_congruent(t, f1, f2, r, i + 1);
        }
    }
}

/// The letter case of the find text does not matter: two find texts that
/// agree once lowered to ASCII lowercase give the same result.
pub proof fn law_find_case_is_ignored(t: Seq<char>, f1: Seq<char>, f2: Seq<char>, r: Seq<char>)
    requires
        ascii_lower(f1) == ascii_lower(f2),
    ensures
        replace_ci(t, f1, r) == replace_ci(t, f2, r),
{
    lemma_replace_congruent(t, f1, f2, r, 0);
}

/// Text in which the find text never occurs (ignoring ASCII case) comes back
/// unchanged.
pub proof fn law_absent_find_leaves_text(t: Seq<char>, f: Seq<char>, r: Seq<char>)
    requires
        forall|i: int| !occurs_at(ascii_lower(t), ascii_lower(f), i),
    ensures
        replace_ci(t, f, r) == t,
{
    lemma_replace_tail(t, f, r, 0);
    assert(t.subrange(0, t.len() as int) =~= t);
}

/// Replacing a find text by itself changes nothing when every occurrence
/// already has exactly the find text's letters.
proof fn lemma_replace_identity_from(t: Seq<char>, f: Seq<char>, i: int)
    requires
        0 <= i <= t.len(),
        forall|j: int| matches_ci_at(t, f, j) ==> occurs_at(t, f, j),
    ensures
        replace_ci_from(t, f, f, i) == t.subrange(i, t.len() as int),
    decreases t.len() - i,
{
    if i < t.len() {
        if matches_ci_at(t, f, i) {
            lemma_replace_identity_from(t, f, i + f.len());
            assert(t.subrange(i, t.len() as int) =~= t.subrange(i, i + f.len()) + t.subrange(
                i + f.len(),
                t.len() as int,
            ));
        } else {
            lemma_replace_identity_from(t, f, i + 1);
            assert(t.subrange(i, t.len() as int) =~= seq![t[i]] + t.subrange(
                i + 1,
                t.len() as int,
            ));
        }
    } else {
        assert(t.subrange(i, t.len() as int) =~= Seq::<char>::empty());
    }
}

/// A rule that replaces a text by itself leaves every text in which the
/// matches are already spelled exactly like the find text unchanged.
pub proof fn law_self_replacement_is_identity(t: Seq<char>, f: Seq<char>)
    requires
        forall|j: int| matches_ci_at(t, f, j) ==> occurs_at(t, f, j),
    ensures
        replace_ci(t, f, f) == t,
{
    lemma_replace_identity_from(t, f, 0);
    assert(t.subrange(0, t.len() as int) =~= t);
}

/// No rules, no change.
pub proof fn law_no_rules_no_change(t: Seq<char>)
    ensures
        apply_rules(t, Seq::<ReplacementRule>::empty()) == t,
{
}

/// Applying two lists of rules one after the other is the same as applying
/// their concatenation.
pub proof fn law_rules_compose(t: Seq<char>, a: Seq<ReplacementRule>, b: Seq<ReplacementRule>)
    ensures
        apply_rules(t, a + b) == apply_rules(apply_rules(t, a), b),
    decreases b.len(),
{
    if b.len() == 0 {
        assert(a + b =~= a);
    } else {
        law_rules_compose(t, a, b.drop_last());
        assert((a + b).drop_last() =~= a + b.drop_last());
        assert((a + b).last() == b.last());
    }
}

/// A rule with an empty find text is skipped.
pub proof fn law_empty_find_is_skipped(t: Seq<char>, rules: Seq<ReplacementRule>, rule: ReplacementRule)
    requires
        rule.find@.len() == 0,
    ensures
        apply_rules(t, rules.push(rule)) == apply_rules(t, rules),
{
    assert(rules.push(rule).drop_last() =~= rules);
}

proof fn lemma_replace_shift(t: Seq<char>, f: Seq<char>, r: Seq<char>, k: int, i: int)
    requires
        0 <= k <= i,
        k <= t.len(),
    ensures
        replace_ci_from(t, f, r, i) == replace_ci_from(t.skip(k), f, r, i - k),
    decreases t.len() - i,
{
    let u = t.skip(k);
    if i < t.len() {
        lemma_lower_len(t);
        lemma_lower_len(u);
        lemma_lower_len(f);
        if i + f.len() <= t.len() {
            assert(ascii_lower(u).subrange(i - k, i - k + f.len()) =~= ascii_lower(t).subrange(
                i,
                i + f.len(),
            ));
        }
        assert(matches_ci_at(t, f, i) == matches_ci_at(u, f, i - k));
        assert(u[i - k] == t[i]);
        if matches_ci_at(t, f, i) {
            lemma_replace_shift(t, f, r, k, i + f.len());
        } else {
            lemma_replace_shift(t, f, r, k, i + 1);
        }
    }
}

/// A text that starts with the find text (ASCII case ignored) starts, once
/// replaced, with the replacement, followed by the replaced rest; this holds
/// for every replacement, the empty one too.
pub proof fn law_match_at_start_is_replaced(t: Seq<char>, f: Seq<char>, r: Seq<char>)
    requires
        f.len() > 0,
        occurs_at(ascii_lower(t), ascii_lower(f), 0),
    ensures
        replace_ci(t, f, r) == r + replace_ci(t.skip(f.len() as int), f, r),
{
    lemma_lower_len(t);
    lemma_lower_len(f);
    lemma_replace_shift(t, f, r, f.len() as int, f.len() as int);
}

/// A text that does not start with the find text keeps its first character,
/// followed by the replaced rest.
pub proof fn law_no_match_at_start_is_kept(t: Seq<char>, f: Seq<char>, r: Seq<char>)
    requires
        t.len() > 0,
        !occurs_at(ascii_lower(t), ascii_lower(f), 0),
    ensures
        replace_ci(t, f, r) == seq![t[0]] + replace_ci(t.skip(1), f, r),
{
    lemma_replace_shift(t, f, r, 1, 1);
}

/// Only an empty find text skips a rule: a rule with a non-empty find text is
/// always applied to the text the earlier rules left, whatever its
/// replacement (the empty one included).
pub proof fn law_nonempty_find_is_applied(t: Seq<char>, rules: Seq<ReplacementRule>, rule: ReplacementRule)
    requires
        rule.find@.len() > 0,
    ensures
        apply_rules(t, rules.push(rule)) == replace_ci(apply_rules(t, rules), rule.find@, rule.replace@),
        apply_rules(t, seq![rule]) == replace_ci(t, rule.find@, rule.replace@),
{
    assert(rules.push(rule).drop_last() =~= rules);
    assert(seq![rule].drop_last() =~= Seq::<ReplacementRule>::empty());
    assert(seq![rule].last() == rule);
    assert(apply_rules(t, seq![rule].drop_last()) == t);
}

} // verus!
