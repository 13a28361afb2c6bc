//! Lines put together and taken apart, and occurrences counted and replaced.
use vstd::prelude::*;

use crate::edit;
use crate::laws;
use crate::laws::texts;
use crate::lines;
use crate::number;
use crate::text;

verus! {

// ── lines ───────────────────────────────────────────────────────────────────

/// A text without a line feed is one line, unless it is empty; and a stretch, a
/// line feed and a text have that stretch as a line, without one carriage
/// return at its end, and then the lines of the text.
pub proof fn lines_are_between_line_feeds(a: Seq<char>, b: Seq<char>)
    requires
        laws::lacks(a, '\n'),
    ensures
        lines::lines(seq![]).len() == 0,
        a.len() > 0 ==> lines::lines(a) == seq![a],
        lines::lines(a + seq!['\n'] + b) == seq![
            if a.len() > 0 && a.last() == '\r' {
                a.drop_last()
            } else {
                a
            },
        ] + lines::lines(b),
{
    let none = Seq::<char>::empty();
    assert(lines::lines(none) =~= seq![]);
    if a.len() > 0 {
        lemma_line_end(a, 0, a.len() as int);
        assert(a.subrange(0, a.len() as int) =~= a);
        assert(lines::lines(a) =~= seq![a]);
    }
    let head = a + seq!['\n'];
    let s = head + b;
    assert(head.last() == '\n');
    lines::lines_of_two_texts(head, b);
    assert forall|i: int| 0 <= i < a.len() implies head[i] != '\n' by {
        assert(head[i] == a[i]);
    }
    lemma_line_end(head, 0, a.len() as int);
    assert(head.subrange(0, a.len() as int) =~= a);
    assert(lines::lines_from(head, (a.len() + 1) as int) =~= seq![]);
    assert(lines::lines(head) =~= seq![lines::without_cr(a)]);
}

proof fn lemma_line_end(s: Seq<char>, from: int, end: int)
    requires
        0 <= from <= end <= s.len(),
        end < s.len() ==> s[end] == '\n',
        forall|i: int| from <= i < end ==> s[i] != '\n',
    ensures
        lines::line_end(s, from) == end,
    decreases end - from,
{
    if from < end {
        lemma_line_end(s, from + 1, end);
    }
}

/// Nothing put together is nothing, one part is itself, and a part before
/// others is followed by a separator.
pub proof fn joining_puts_separators_between(
    a: Seq<char>,
    rest: Seq<Seq<char>>,
    sep: Seq<char>,
)
    ensures
        lines::joined(seq![], sep) == Seq::<char>::empty(),
        lines::joined(seq![a], sep) == a,
        rest.len() > 0 ==> lines::joined(seq![a] + rest, sep) == a + sep + lines::joined(rest, sep),
{
    if rest.len() > 0 {
        lines::joining_in_two_lots(seq![a], rest, sep);
    }
}

/// A numbered line is the number in its column, a blank, a bar, a blank, and the
/// line as it is; there are as many as there were, and the numbers go up by
/// one.
pub proof fn numbered_lines_keep_their_text(ls: Seq<Seq<char>>, start: int, i: int)
    requires
        0 <= start,
        0 <= i < ls.len(),
    ensures
        lines::numbered(ls, start).len() == ls.len(),
        lines::numbered(ls, start)[i] == number::column4((start + i) as nat) + seq![' ', '|', ' ']
            + ls[i],
{
    reveal_strlit(" | ");
    assert(" | "@ =~= seq![' ', '|', ' ']);
}

// ── occurrences ─────────────────────────────────────────────────────────────

/// `a + p + b` is the text, and `p` does not stand in it at an earlier position.
pub open spec fn is_first_part(a: Seq<char>, p: Seq<char>, b: Seq<char>) -> bool {
    forall|x: Seq<char>, y: Seq<char>| #[trigger]
        laws::between(x, p, y) == laws::between(a, p, b) ==> a.len() <= x.len()
}

/// The first occurrence counts as one, and those after it count on; where there
/// is none, the count is zero. An empty text occurs once more than there are
/// characters.
pub proof fn occurrences_one_by_one(a: Seq<char>, p: Seq<char>, b: Seq<char>, s: Seq<char>)
    ensures
        p.len() > 0 && is_first_part(a, p, b) ==> edit::occurrences(laws::between(a, p, b), p) == 1
            + edit::occurrences(b, p),
        p.len() > 0 && !laws::holds(s, p) ==> edit::occurrences(s, p) == 0,
        edit::occurrences(s, seq![]) == s.len() + 1,
{
    if p.len() > 0 {
        if is_first_part(a, p, b) {
            lemma_first_part(a, p, b);
            lemma_occurrences_shift(a + p, b, p, 0);
            assert(laws::between(a, p, b) =~= (a + p) + b);
        }
        if !laws::holds(s, p) {
            texts::containment_is_being_a_part(s, p);
            text::first_occurrence_is_least(s, p, 0);
        }
    }
}

/// The first occurrence is replaced, what stands before it stays, and what
/// stands after it is treated likewise; where there is none, all stays. An
/// empty text is replaced before every character and at the end.
pub proof fn replacing_one_by_one(
    a: Seq<char>,
    p: Seq<char>,
    b: Seq<char>,
    s: Seq<char>,
    r: Seq<char>,
    c: char,
)
    ensures
        p.len() > 0 && is_first_part(a, p, b) ==> edit::replaced(laws::between(a, p, b), p, r) == a
            + r + edit::replaced(b, p, r),
        p.len() > 0 && !laws::holds(s, p) ==> edit::replaced(s, p, r) == s,
        edit::replaced(seq![], seq![], r) == r,
        edit::replaced(seq![c] + s, seq![], r) == r + seq![c] + edit::replaced(s, seq![], r),
{
    if p.len() > 0 {
        if is_first_part(a, p, b) {
            lemma_first_part(a, p, b);
            let all = laws::between(a, p, b);
            lemma_replaced_shift(a + p, b, p, r, 0);
            assert(all =~= (a + p) + b);
            assert(all.subrange(0, a.len() as int) =~= a);
        }
        if !laws::holds(s, p) {
            texts::containment_is_being_a_part(s, p);
            text::first_occurrence_is_least(s, p, 0);
            assert(s.skip(0) =~= s);
        }
    }
    let t = seq![c] + s;
    assert(t[0] == c);
    lemma_spread_shift(seq![c], s, r, 0);
}

proof fn lemma_first_part(a: Seq<char>, p: Seq<char>, b: Seq<char>)
    requires
        is_first_part(a, p, b),
    ensures
        text::first_occurrence(laws::between(a, p, b), p, 0) == Some(a.len() as int),
{
    let s = laws::between(a, p, b);
    texts::parts_are_contained(a, p, b);
    text::first_occurrence_is_least(s, p, 0);
    let i = text::first_occurrence(s, p, 0).unwrap();
    let (x, y) = (s.take(i), s.skip(i + p.len()));
    assert(laws::between(x, p, y) =~= s);
}

proof fn lemma_occurs_shift(head: Seq<char>, tail: Seq<char>, p: Seq<char>, i: int)
    requires
        0 <= i,
    ensures
        text::occurs_at(head + tail, p, head.len() + i) == text::occurs_at(tail, p, i),
{
    if i + p.len() <= tail.len() {
        assert((head + tail).subrange(head.len() + i, head.len() + i + p.len()) =~= tail.subrange(
            i,
            i + p.len(),
        ));
    }
}

proof fn lemma_first_shift(head: Seq<char>, tail: Seq<char>, p: Seq<char>, from: int)
    requires
        0 <= from,
    ensures
        text::first_occurrence(head + tail, p, head.len() + from) == (
        match text::first_occurrence(tail, p, from) {
            Some(i) => Some(head.len() + i),
            None => None,
        }),
    decreases tail.len() + 1 - from,
{
    lemma_occurs_shift(head, tail, p, from);
    if from + p.len() <= tail.len() && !text::occurs_at(tail, p, from) {
        lemma_first_shift(head, tail, p, from + 1);
    }
}

proof fn lemma_occurrences_shift(head: Seq<char>, tail: Seq<char>, p: Seq<char>, from: int)
    requires
        0 < p.len(),
        0 <= from <= tail.len(),
    ensures
        edit::occurrences_from(head + tail, p, head.len() + from) == edit::occurrences_from(
            tail,
            p,
            from,
        ),
    decreases tail.len() - from,
{
    lemma_first_shift(head, tail, p, from);
    text::first_occurrence_is_least(tail, p, from);
    if let Some(i) = text::first_occurrence(tail, p, from) {
        lemma_occurrences_shift(head, tail, p, i + p.len());
    }
}

proof fn lemma_replaced_shift(
    head: Seq<char>,
    tail: Seq<char>,
    p: Seq<char>,
    r: Seq<char>,
    from: int,
)
    requires
        0 < p.len(),
        0 <= from <= tail.len(),
    ensures
        edit::replaced_from(head + tail, p, r, head.len() + from) == edit::replaced_from(
            tail,
            p,
            r,
            from,
        ),
    decreases tail.len() - from,
{
    let s = head + tail;
    lemma_first_shift(head, tail, p, from);
    text::first_occurrence_is_least(tail, p, from);
    match text::first_occurrence(tail, p, from) {
        Some(i) => {
            lemma_replaced_shift(head, tail, p, r, i + p.len());
            assert(s.subrange(head.len() + from, head.len() + i) =~= tail.subrange(from, i));
        },
        None => {
            assert(s.skip(head.len() + from) =~= tail.skip(from));
        },
    }
}

proof fn lemma_spread_shift(head: Seq<char>, tail: Seq<char>, r: Seq<char>, from: int)
    requires
        0 <= from <= tail.len(),
    ensures
        edit::spread_from(head + tail, r, head.len() + from) == edit::spread_from(tail, r, from),
    decreases tail.len() - from,
{
    if from < tail.len() {
        assert((head + tail)[head.len() + from] == tail[from]);
        lemma_spread_shift(head, tail, r, from + 1);
    }
}

/// What is put in after an anchor comes after its first occurrence, and nothing
/// else changes; without an occurrence nothing is put in.
pub proof fn insertion_is_after_the_first_anchor(
    a: Seq<char>,
    anchor: Seq<char>,
    b: Seq<char>,
    s: Seq<char>,
    new: Seq<char>,
)
    ensures
        is_first_part(a, anchor, b) ==> edit::inserted_after(
            laws::between(a, anchor, b),
            anchor,
            new,
        ) == Some(a + anchor + new + b),
        !laws::holds(s, anchor) ==> edit::inserted_after(s, anchor, new) is None,
{
    if is_first_part(a, anchor, b) {
        lemma_first_part(a, anchor, b);
        let all = laws::between(a, anchor, b);
        let end = a.len() + anchor.len();
        assert(all.take(end as int) =~= a + anchor);
        assert(all.skip(end as int) =~= b);
    }
    if !laws::holds(s, anchor) {
        texts::containment_is_being_a_part(s, anchor);
        text::first_occurrence_is_least(s, anchor, 0);
    }
}

} // verus!
