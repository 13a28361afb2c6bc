//! Counting and replacing the occurrences of one text in another.
//!
//! Occurrences are counted from left to right and do not overlap. An empty
//! text occurs before every character and once more at the end.
use vstd::prelude::*;
use vstd::string::*;

use crate::text::{self, append_range, chars_of, find_from};

verus! {

/// How often `p` occurs in `s` from position `from` on, for a `p` that is not
/// empty.
pub open spec fn occurrences_from(s: Seq<char>, p: Seq<char>, from: int) -> nat
    decreases s.len() - from,
    when 0 < p.len() && 0 <= from <= s.len()
{
    proof {
        text::first_occurrence_is_least(s, p, from);
    }
    match text::first_occurrence(s, p, from) {
        Some(i) => 1 + occurrences_from(s, p, i + p.len()),
        None => 0,
    }
}

/// How often `p` occurs in `s`.
pub open spec fn occurrences(s: Seq<char>, p: Seq<char>) -> nat {
    if p.len() == 0 {
        s.len() + 1
    } else {
        occurrences_from(s, p, 0)
    }
}

/// `s` from position `from` on, with every occurrence of `p` replaced by `r`,
/// for a `p` that is not empty.
pub open spec fn replaced_from(s: Seq<char>, p: Seq<char>, r: Seq<char>, from: int) -> Seq<char>
    decreases s.len() - from,
    when 0 < p.len() && 0 <= from <= s.len()
{
    proof {
        text::first_occurrence_is_least(s, p, from);
    }
    match text::first_occurrence(s, p, from) {
        Some(i) => s.subrange(from, i) + r + replaced_from(s, p, r, i + p.len()),
        None => s.skip(from),
    }
}

/// `s` from position `from` on, with `r` before every character and at the
/// end.
pub open spec fn spread_from(s: Seq<char>, r: Seq<char>, from: int) -> Seq<char>
    decreases s.len() - from,
{
    if 0 <= from < s.len() {
        r + seq![s[from]] + spread_from(s, r, from + 1)
    } else {
        r
    }
}

/// `s` with every occurrence of `p` replaced by `r`.
pub open spec fn replaced(s: Seq<char>, p: Seq<char>, r: Seq<char>) -> Seq<char> {
    if p.len() == 0 {
        spread_from(s, r, 0)
    } else {
        replaced_from(s, p, r, 0)
    }
}

/// `s` with `new` put in right after the first occurrence of `anchor`.
pub open spec fn inserted_after(s: Seq<char>, anchor: Seq<char>, new: Seq<char>) -> Option<
    Seq<char>,
> {
    match text::first_occurrence(s, anchor, 0) {
        Some(i) => Some(s.take(i + anchor.len()) + new + s.skip(i + anchor.len())),
        None => None,
    }
}

/// Where `first_occurrence` finds something, it lies within the text.
proof fn lemma_found_in_bounds(s: Seq<char>, p: Seq<char>, from: int)
    requires
        0 <= from,
    ensures
        text::first_occurrence(s, p, from) matches Some(i) ==> from <= i && i + p.len() <= s.len()
            && s.subrange(i, i + p.len()) == p,
{
    text::first_occurrence_is_least(s, p, from);
}

// ── executable ──────────────────────────────────────────────────────────────

/// How often `p` occurs in `s`.
pub fn count_occurrences(s: &str, p: &str) -> (n: usize)
    requires
        s@.len() < usize::MAX,
    ensures
        n == occurrences(s@, p@),
{
    let sv = chars_of(s);
    let pv = chars_of(p);
    if pv.len() == 0 {
        return sv.len() + 1;
    }
    let mut n: usize = 0;
    let mut pos: usize = 0;
    loop
        invariant
            sv@ == s@,
            pv@ == p@,
            pv@.len() > 0,
            n <= pos <= sv@.len() < usize::MAX,
            occurrences_from(s@, p@, 0) == n + occurrences_from(s@, p@, pos as int),
        decreases sv@.len() - pos,
    {
        proof {
            lemma_found_in_bounds(s@, p@, pos as int);
        }
        match find_from(&sv, &pv, pos) {
            Some(i) => {
                pos = i + pv.len();
                n += 1;
            },
            None => {
                return n;
            },
        }
    }
}

/// `s` with every occurrence of `p` replaced by `r`.
pub fn replace_all(s: &str, p: &str, r: &str) -> (out: String)
    ensures
        out@ == replaced(s@, p@, r@),
{
    let sv = chars_of(s);
    let pv = chars_of(p);
    let mut out = String::new();
    let mut pos: usize = 0;
    if pv.len() == 0 {
        while pos < sv.len()
            invariant
                sv@ == s@,
                pos <= sv@.len(),
                replaced(s@, p@, r@) == out@ + spread_from(s@, r@, pos as int),
            decreases sv@.len() - pos,
        {
            let ghost before = out@;
            out.append(r);
            out.push(sv[pos]);
            pos += 1;
            assert(out@ =~= before + (r@ + seq![s@[pos - 1]]));
            assert(replaced(s@, p@, r@) =~= out@ + spread_from(s@, r@, pos as int));
        }
        out.append(r);
        return out;
    }
    assert(replaced(s@, p@, r@) =~= out@ + replaced_from(s@, p@, r@, 0));
    loop
        invariant
            sv@ == s@,
            pv@ == p@,
            pv@.len() > 0,
            pos <= sv.len(),
            replaced(s@, p@, r@) == out@ + replaced_from(s@, p@, r@, pos as int),
        decreases sv@.len() - pos,
    {
        proof {
            lemma_found_in_bounds(s@, p@, pos as int);
            assert(sv@.len() == sv.len());
        }
        match find_from(&sv, &pv, pos) {
            Some(i) => {
                let ghost before = out@;
                append_range(&mut out, &sv, pos, i);
                out.append(r);
                assert(out@ + replaced_from(s@, p@, r@, i + p@.len()) =~= before + (s@.subrange(
                    pos as int,
                    i as int,
                ) + r@ + replaced_from(s@, p@, r@, i + p@.len())));
                pos = i + pv.len();
            },
            None => {
                append_range(&mut out, &sv, pos, sv.len());
                return out;
            },
        }
    }
}

/// `s` with `new` put in right after the first occurrence of `anchor`, or
/// nothing where there is no occurrence.
pub fn insert_after(s: &str, anchor: &str, new: &str) -> (out: Option<String>)
    ensures
        text::opt_text(out) == inserted_after(s@, anchor@, new@),
{
    let sv = chars_of(s);
    let av = chars_of(anchor);
    proof {
        lemma_found_in_bounds(sv@, av@, 0);
        assert(sv@.len() == sv.len());
    }
    match find_from(&sv, &av, 0) {
        Some(i) => {
            let end: usize = i + av.len();
            let mut out = String::new();
            append_range(&mut out, &sv, 0, end);
            out.append(new);
            append_range(&mut out, &sv, end, sv.len());
            assert(out@ =~= s@.take(end as int) + new@ + s@.skip(end as int));
            Some(out)
        },
        None => None,
    }
}

// ── laws ────────────────────────────────────────────────────────────────────

/// A text occurs at least once exactly where it is contained.
pub proof fn occurrences_positive_iff_contained(s: Seq<char>, p: Seq<char>)
    ensures
        occurrences(s, p) > 0 <==> text::contains_text(s, p),
{
    text::first_occurrence_is_least(s, p, 0);
    if p.len() == 0 {
        assert(s.subrange(0, 0) =~= p);
        assert(text::occurs_at(s, p, 0));
    }
}

/// Replacing a text that does not occur changes nothing.
pub proof fn replacing_nothing_is_identity(s: Seq<char>, p: Seq<char>, r: Seq<char>)
    requires
        occurrences(s, p) == 0,
    ensures
        replaced(s, p, r) == s,
{
    text::first_occurrence_is_least(s, p, 0);
    assert(s.skip(0) =~= s);
}

/// Replacing a text by itself changes nothing.
pub proof fn replacing_by_itself_is_identity(s: Seq<char>, p: Seq<char>)
    ensures
        replaced(s, p, p) == s,
{
    if p.len() == 0 {
        lemma_spread_nothing(s, p, 0);
    } else {
        lemma_replaced_itself(s, p, 0);
    }
    assert(s.skip(0) =~= s);
}

proof fn lemma_spread_nothing(s: Seq<char>, r: Seq<char>, from: int)
    requires
        r.len() == 0,
        0 <= from <= s.len(),
    ensures
        spread_from(s, r, from) == s.skip(from),
    decreases s.len() - from,
{
    if from < s.len() {
        lemma_spread_nothing(s, r, from + 1);
        assert(r + seq![s[from]] + s.skip(from + 1) =~= s.skip(from));
    } else {
        assert(r =~= s.skip(from));
    }
}

proof fn lemma_replaced_itself(s: Seq<char>, p: Seq<char>, from: int)
    requires
        p.len() > 0,
        0 <= from <= s.len(),
    ensures
        replaced_from(s, p, p, from) == s.skip(from),
    decreases s.len() - from,
{
    lemma_found_in_bounds(s, p, from);
    if let Some(i) = text::first_occurrence(s, p, from) {
        lemma_replaced_itself(s, p, i + p.len());
        assert(s.subrange(from, i) + s.subrange(i, i + p.len()) + s.skip(i + p.len()) =~= s.skip(
            from,
        ));
    }
}

/// `p` stands in `s` at one position, and at no other.
pub open spec fn occurs_once(s: Seq<char>, p: Seq<char>) -> bool {
    exists|i: int| #[trigger] text::occurs_at(s, p, i) && forall|j: int| #[trigger]
        text::occurs_at(s, p, j) ==> j == i
}

/// The replacement of a text that occurs once can be undone, where the new
/// text then stands at one position only.
pub proof fn single_replacement_can_be_undone(s: Seq<char>, old: Seq<char>, new: Seq<char>)
    requires
        old.len() > 0,
        new.len() > 0,
        occurrences(s, old) == 1,
        occurs_once(replaced(s, old, new), new),
    ensures
        occurrences(replaced(s, old, new), new) == 1,
        replaced(replaced(s, old, new), new, old) == s,
{
    lemma_found_in_bounds(s, old, 0);
    let i = text::first_occurrence(s, old, 0).unwrap();
    let end = i + old.len();
    assert(occurrences_from(s, old, end) == 0);
    let out = replaced(s, old, new);
    assert(replaced_from(s, old, new, end) == s.skip(end));
    assert(out =~= s.take(i) + new + s.skip(end));
    let out_end = i + new.len();
    assert(out.subrange(i, out_end) =~= new);
    assert(text::occurs_at(out, new, i));
    text::first_occurrence_is_least(out, new, 0);
    assert(text::first_occurrence(out, new, 0) == Some(i));
    text::first_occurrence_is_least(out, new, out_end);
    assert(text::first_occurrence(out, new, out_end) is None);
    assert(occurrences_from(out, new, out_end) == 0);
    assert(replaced_from(out, new, old, out_end) == out.skip(out_end));
    assert(out.subrange(0, i) + old + out.skip(out_end) =~= s);
}

/// Each replacement changes the length by the difference of the two texts.
pub proof fn replacing_changes_length(s: Seq<char>, p: Seq<char>, r: Seq<char>)
    ensures
        replaced(s, p, r).len() == s.len() + occurrences(s, p) * (r.len() - p.len()),
{
    if p.len() == 0 {
        lemma_spread_length(s, r, 0);
        assert((s.len() + 1) * (r.len() - p.len()) == (s.len() + 1) * r.len()) by (nonlinear_arith)
            requires
                p.len() == 0,
        ;
    } else {
        lemma_replaced_length(s, p, r, 0);
    }
}

proof fn lemma_spread_length(s: Seq<char>, r: Seq<char>, from: int)
    requires
        0 <= from <= s.len(),
    ensures
        spread_from(s, r, from).len() == s.len() - from + (s.len() - from + 1) * r.len(),
    decreases s.len() - from,
{
    if from < s.len() {
        lemma_spread_length(s, r, from + 1);
        assert((s.len() - from + 1) * r.len() == (s.len() - (from + 1) + 1) * r.len() + r.len())
            by (nonlinear_arith);
    } else {
        assert((s.len() - from + 1) * r.len() == r.len()) by (nonlinear_arith)
            requires
                from == s.len(),
        ;
    }
}

proof fn lemma_replaced_length(s: Seq<char>, p: Seq<char>, r: Seq<char>, from: int)
    requires
        p.len() > 0,
        0 <= from <= s.len(),
    ensures
        replaced_from(s, p, r, from).len() == s.len() - from + occurrences_from(s, p, from) * (
        r.len() - p.len()),
    decreases s.len() - from,
{
    lemma_found_in_bounds(s, p, from);
    let d = r.len() - p.len();
    match text::first_occurrence(s, p, from) {
        Some(i) => {
            let n = occurrences_from(s, p, i + p.len());
            lemma_replaced_length(s, p, r, i + p.len());
            assert((1 + n) * d == d + n * d) by (nonlinear_arith);
        },
        None => {
            assert(0 * d == 0) by (nonlinear_arith);
        },
    }
}

} // verus!
