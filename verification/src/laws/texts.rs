//! Searching, trimming and dividing texts, numbers as text, and the order of
//! raw names.
use vstd::prelude::*;

use crate::laws;
use crate::number;
use crate::order;
use crate::text;

verus! {

// ── searching ───────────────────────────────────────────────────────────────

/// A text occurs at a position exactly where it stands there character by
/// character.
pub proof fn occurrence_is_character_by_character(s: Seq<char>, p: Seq<char>, i: int)
    ensures
        text::occurs_at(s, p, i) <==> 0 <= i && i + p.len() <= s.len() && forall|k: int|
            0 <= k < p.len() ==> s[i + k] == #[trigger] p[k],
{
    if 0 <= i && i + p.len() <= s.len() {
        let part = s.subrange(i, i + p.len());
        if forall|k: int| 0 <= k < p.len() ==> s[i + k] == #[trigger] p[k] {
            assert(part =~= p);
        }
        if part == p {
            assert forall|k: int| 0 <= k < p.len() implies s[i + k] == #[trigger] p[k] by {
                assert(part[k] == s[i + k]);
            }
        }
    }
}

/// A text is contained in another exactly where the other is made up of it and
/// of what stands around it.
pub proof fn containment_is_being_a_part(s: Seq<char>, p: Seq<char>)
    ensures
        text::contains_text(s, p) <==> laws::holds(s, p),
{
    if text::contains_text(s, p) {
        let i = choose|i: int| text::occurs_at(s, p, i);
        let (a, b) = (s.take(i), s.skip(i + p.len()));
        assert(s =~= laws::between(a, p, b));
    }
    if laws::holds(s, p) {
        let (a, b) = choose|a: Seq<char>, b: Seq<char>| s == #[trigger] laws::between(a, p, b);
        parts_are_contained(a, p, b);
    }
}

/// Whatever is put around a text contains it, at the place where it was put.
pub proof fn parts_are_contained(a: Seq<char>, p: Seq<char>, b: Seq<char>)
    ensures
        text::occurs_at(laws::between(a, p, b), p, a.len() as int),
        text::contains_text(laws::between(a, p, b), p),
{
    let s = laws::between(a, p, b);
    assert(s.subrange(a.len() as int, (a.len() + p.len()) as int) =~= p);
    assert(text::occurs_at(s, p, a.len() as int));
}

/// A prefix is taken off exactly where the text is made up of the prefix and
/// of what is left.
pub proof fn prefix_and_rest_make_the_text(s: Seq<char>, p: Seq<char>, r: Seq<char>)
    ensures
        text::after_prefix(s, p) == Some(r) <==> s == p + r,
        text::begins_with(s, p) <==> text::after_prefix(s, p) is Some,
{
    if text::begins_with(s, p) {
        assert(s =~= p + s.skip(p.len() as int));
        assert((p + r).skip(p.len() as int) =~= r);
    }
    if s == p + r {
        assert(s.subrange(0, p.len() as int) =~= p);
        assert(s.skip(p.len() as int) =~= r);
    }
}

/// A text begins with another exactly where it is made up of the other and of
/// what follows it.
pub proof fn beginnings_are_parts(s: Seq<char>, p: Seq<char>)
    ensures
        text::begins_with(s, p) <==> laws::starts(s, p),
        text::after_prefix(s, p) is Some <==> laws::starts(s, p),
{
    if text::begins_with(s, p) {
        let r = s.skip(p.len() as int);
        prefix_and_rest_make_the_text(s, p, r);
        assert(laws::between(seq![], p, r) =~= p + r);
    }
    if laws::starts(s, p) {
        let r = choose|r: Seq<char>| s == #[trigger] laws::between(seq![], p, r);
        assert(laws::between(seq![], p, r) =~= p + r);
        prefix_and_rest_make_the_text(s, p, r);
    }
}

/// A text is split around the first separator: the parts and the separator make
/// it up, and the separator does not stand in it at an earlier position. It is
/// not split exactly where it does not contain the separator.
pub proof fn splitting_is_around_the_first(s: Seq<char>, sep: Seq<char>)
    ensures
        match text::split_at_first(s, sep) {
            Some((a, b)) => s == laws::between(a, sep, b) && forall|x: Seq<char>, y: Seq<char>|
                s == #[trigger] laws::between(x, sep, y) ==> a.len() <= x.len(),
            None => !laws::holds(s, sep),
        },
{
    text::first_occurrence_is_least(s, sep, 0);
    containment_is_being_a_part(s, sep);
    if let Some(i) = text::first_occurrence(s, sep, 0) {
        let (a, b) = (s.take(i), s.skip(i + sep.len()));
        assert(s =~= laws::between(a, sep, b));
        assert forall|x: Seq<char>, y: Seq<char>| s == #[trigger] laws::between(
            x,
            sep,
            y,
        ) implies a.len() <= x.len() by {
            parts_are_contained(x, sep, y);
        }
    }
}

/// What is split off before a separator of one character, and what is left, for
/// a first part that does not hold the character.
pub proof fn splitting_at_a_character(a: Seq<char>, c: char, b: Seq<char>)
    requires
        laws::lacks(a, c),
    ensures
        text::split_at_first(a + seq![c] + b, seq![c]) == Some((a, b)),
        text::split_at_first(a, seq![c]) is None,
{
    let s = a + seq![c] + b;
    let sep = seq![c];
    splitting_is_around_the_first(s, sep);
    assert(s =~= laws::between(a, sep, b));
    let (x, y) = text::split_at_first(s, sep).unwrap();
    assert(x.len() <= a.len());
    if x.len() < a.len() {
        assert(laws::between(x, sep, y)[x.len() as int] == c);
        assert(a[x.len() as int] == s[x.len() as int]);
    }
    assert(s.take(a.len() as int) =~= a);
    assert(laws::between(x, sep, y).take(a.len() as int) =~= x);
    assert(s.skip((a.len() + 1) as int) =~= b);
    assert(laws::between(x, sep, y).skip((a.len() + 1) as int) =~= y);
    splitting_is_around_the_first(a, sep);
    if laws::holds(a, sep) {
        let (u, v) = choose|u: Seq<char>, v: Seq<char>| a == #[trigger] laws::between(u, sep, v);
        assert(laws::between(u, sep, v)[u.len() as int] == c);
    }
}

// ── trimming ────────────────────────────────────────────────────────────────

/// All characters are blanks.
pub open spec fn is_blank(s: Seq<char>) -> bool {
    forall|i: int| 0 <= i < s.len() ==> text::is_white_space(#[trigger] s[i])
}

/// The blanks are those of the Unicode property, by their codes.
pub proof fn blanks_by_their_codes(c: char)
    ensures
        text::is_white_space(c) <==> {
            let u = c as u32;
            ||| 9 <= u <= 13
            ||| u == 32
            ||| u == 133
            ||| u == 160
            ||| u == 5760
            ||| 8192 <= u <= 8202
            ||| u == 8232
            ||| u == 8233
            ||| u == 8239
            ||| u == 8287
            ||| u == 12288
        },
{
}

/// Blanks are taken off, and nothing else: what was taken off at both ends is
/// blank, and what is left neither begins nor ends with a blank.
pub proof fn trimming_takes_off_blanks_only(s: Seq<char>)
    ensures
        exists|a: Seq<char>, b: Seq<char>|
            is_blank(a) && is_blank(b) && s == #[trigger] laws::between(a, text::trimmed(s), b),
        text::trimmed(s).len() > 0 ==> !text::is_white_space(text::trimmed(s)[0])
            && !text::is_white_space(text::trimmed(s).last()),
{
    lemma_trimmed_start(s);
    let a = choose|a: Seq<char>|
        is_blank(a) && s == #[trigger] laws::between(a, text::trimmed_start(s), seq![]);
    let m = text::trimmed_start(s);
    lemma_trimmed_end(m);
    let b = choose|b: Seq<char>|
        is_blank(b) && m == #[trigger] laws::between(seq![], text::trimmed_end(m), b);
    let t = text::trimmed(s);
    assert(s =~= laws::between(a, t, b));
    if t.len() > 0 {
        assert(t[0] == m[0]);
    }
}

proof fn lemma_trimmed_start(s: Seq<char>)
    ensures
        exists|a: Seq<char>|
            is_blank(a) && s == #[trigger] laws::between(a, text::trimmed_start(s), seq![]),
        text::trimmed_start(s).len() > 0 ==> !text::is_white_space(text::trimmed_start(s)[0]),
    decreases s.len(),
{
    let t = text::trimmed_start(s);
    if s.len() > 0 && text::is_white_space(s[0]) {
        let r = s.drop_first();
        lemma_trimmed_start(r);
        let a = choose|a: Seq<char>|
            is_blank(a) && r == #[trigger] laws::between(a, text::trimmed_start(r), seq![]);
        let x = seq![s[0]] + a;
        assert forall|i: int| 0 <= i < x.len() implies text::is_white_space(#[trigger] x[i]) by {
            if i > 0 {
                assert(x[i] == a[i - 1]);
            }
        }
        assert(s =~= seq![s[0]] + r);
        assert(s =~= laws::between(x, t, seq![]));
    } else {
        let none = Seq::<char>::empty();
        assert(s =~= laws::between(none, t, seq![]));
        assert(is_blank(none));
    }
}

proof fn lemma_trimmed_end(s: Seq<char>)
    ensures
        exists|b: Seq<char>|
            is_blank(b) && s == #[trigger] laws::between(seq![], text::trimmed_end(s), b),
        text::trimmed_end(s).len() > 0 ==> !text::is_white_space(text::trimmed_end(s).last()),
    decreases s.len(),
{
    let t = text::trimmed_end(s);
    if s.len() > 0 && text::is_white_space(s.last()) {
        let r = s.drop_last();
        lemma_trimmed_end(r);
        let b = choose|b: Seq<char>|
            is_blank(b) && r == #[trigger] laws::between(seq![], text::trimmed_end(r), b);
        let x = b.push(s.last());
        assert forall|i: int| 0 <= i < x.len() implies text::is_white_space(#[trigger] x[i]) by {
            if i < b.len() {
                assert(x[i] == b[i]);
            }
        }
        assert(s =~= r.push(s.last()));
        assert(s =~= laws::between(seq![], t, x));
    } else {
        let none = Seq::<char>::empty();
        assert(s =~= laws::between(seq![], t, none));
        assert(is_blank(none));
    }
}

// ── fields ──────────────────────────────────────────────────────────────────

/// A text without the separator is one field; and a field, a separator and a
/// text have that field and then the fields of the text.
pub proof fn fields_are_between_separators(a: Seq<char>, c: char, b: Seq<char>)
    requires
        laws::lacks(a, c),
    ensures
        text::fields(a, c) == seq![a],
        text::fields(a + seq![c] + b, c) == seq![a] + text::fields(b, c),
{
    lemma_next_char(a, c, 0, a.len() as int);
    assert(a.skip(0) =~= a);
    let head = a + seq![c];
    let s = head + b;
    assert forall|i: int| 0 <= i < a.len() implies s[i] != c by {
        assert(s[i] == a[i]);
    }
    lemma_next_char(s, c, 0, a.len() as int);
    assert(s.subrange(0, a.len() as int) =~= a);
    lemma_fields_shift(head, b, c, 0);
}

proof fn lemma_next_char(s: Seq<char>, c: char, from: int, end: int)
    requires
        0 <= from <= end <= s.len(),
        end < s.len() ==> s[end] == c,
        forall|i: int| from <= i < end ==> s[i] != c,
    ensures
        text::next_char(s, c, from) == end,
    decreases end - from,
{
    if from < end {
        lemma_next_char(s, c, from + 1, end);
    }
}

proof fn lemma_next_char_shift(head: Seq<char>, tail: Seq<char>, c: char, from: int)
    requires
        0 <= from,
    ensures
        text::next_char(head + tail, c, head.len() + from) == head.len() + text::next_char(
            tail,
            c,
            from,
        ),
    decreases tail.len() - from,
{
    if from < tail.len() {
        assert((head + tail)[head.len() + from] == tail[from]);
        if tail[from] != c {
            lemma_next_char_shift(head, tail, c, from + 1);
        }
    }
}

proof fn lemma_fields_shift(head: Seq<char>, tail: Seq<char>, c: char, from: int)
    requires
        0 <= from <= tail.len(),
    ensures
        text::fields_from(head + tail, c, head.len() + from) == text::fields_from(tail, c, from),
    decreases tail.len() - from,
{
    let s = head + tail;
    text::next_char_in_bounds(tail, c, from);
    lemma_next_char_shift(head, tail, c, from);
    let end = text::next_char(tail, c, from);
    assert(s.skip(head.len() + from) =~= tail.skip(from));
    assert(s.subrange(head.len() + from, head.len() + end) =~= tail.subrange(from, end));
    if end < tail.len() {
        lemma_fields_shift(head, tail, c, end + 1);
    }
}

// ── numbers ─────────────────────────────────────────────────────────────────

/// A number has the notation of its tenth and then its last digit; a number
/// below ten has one digit.
pub proof fn decimal_digit_by_digit(n: nat, d: nat)
    requires
        d < 10,
    ensures
        number::decimal(d) == seq![(48 + d) as char],
        n > 0 ==> number::decimal(10 * n + d) == number::decimal(n).push((48 + d) as char),
{
    if n > 0 {
        let m = 10 * n + d;
        assert(m / 10 == n && m % 10 == d);
    }
}

/// A column of four takes at least four characters: blanks, and then the number.
pub proof fn columns_are_filled_with_blanks(n: nat)
    ensures
        ({
            let (col, dec) = (number::column4(n), number::decimal(n));
            &&& col.len() == (if dec.len() > 4 { dec.len() } else { 4 })
            &&& col.skip(col.len() - dec.len()) == dec
            &&& forall|i: int| 0 <= i < col.len() - dec.len() ==> #[trigger] col[i] == ' '
        }),
{
    let (col, dec) = (number::column4(n), number::decimal(n));
    assert(col.skip(col.len() - dec.len()) =~= dec);
}

/// A text denotes a number exactly where it is made up of digits, after a plus
/// sign or not; one more digit makes ten times the number and the digit.
pub proof fn numbers_digit_by_digit(s: Seq<char>, c: char)
    requires
        s.len() > 0,
        s != seq!['+'],
    ensures
        match number::parsed_usize(s.push(c)) {
            Some(m) => number::parsed_usize(s) matches Some(n) && '0' <= c <= '9' && m == 10 * n + (
            c as int - 48),
            None => number::parsed_usize(s) matches Some(n) ==> !('0' <= c <= '9') || 10 * n + (
            c as int - 48) > usize::MAX,
        },
{
    let t = s.push(c);
    let (ds, dt) = (number::unsigned_digits(s), number::unsigned_digits(t));
    assert(s.len() == 1 ==> s =~= seq![s[0]]);
    assert(dt =~= ds.push(c));
    assert(dt.drop_last() =~= ds);
    assert(dt.last() == c);
    if number::all_digits(dt) {
        assert forall|i: int| 0 <= i < ds.len() implies number::is_digit(#[trigger] ds[i]) by {
            assert(dt[i] == ds[i]);
        }
        assert(number::is_digit(dt[ds.len() as int]));
    }
    if number::all_digits(ds) && '0' <= c <= '9' {
        assert forall|i: int| 0 <= i < dt.len() implies number::is_digit(#[trigger] dt[i]) by {
            if i < ds.len() {
                assert(dt[i] == ds[i]);
            }
        }
    }
}

/// One character denotes a number exactly where it is a digit; nothing and a
/// plus sign alone denote none, and a plus sign before digits changes nothing.
pub proof fn short_numbers(c: char, s: Seq<char>)
    ensures
        number::parsed_usize(seq![c]) == (if '0' <= c <= '9' {
            Some((c as int - 48) as usize)
        } else {
            None
        }),
        number::parsed_usize(seq![]) is None,
        s.len() > 0 && s[0] != '+' ==> number::parsed_usize(seq!['+'] + s) == number::parsed_usize(
            s,
        ),
{
    let one = seq![c];
    assert(one.drop_last() =~= seq![]);
    assert(number::digits_value(one.drop_last()) == 0);
    if '0' <= c <= '9' {
        assert(number::all_digits(one));
    } else if c == '+' {
        assert(one.skip(1) =~= seq![]);
    } else {
        assert(!number::is_digit(one[0]));
    }
    assert((seq!['+'] + s).skip(1) =~= s);
}

// ── order ───────────────────────────────────────────────────────────────────

/// The first byte in which two names differ decides, by its value; and a name
/// comes before what goes on after it.
pub proof fn first_difference_decides(p: Seq<u8>, x: u8, a: Seq<u8>, y: u8, b: Seq<u8>)
    ensures
        x != y ==> (order::not_after(p + seq![x] + a, p + seq![y] + b) <==> x < y),
        order::not_after(p, p + a),
        a.len() > 0 ==> !order::not_after(p + a, p),
    decreases p.len(),
{
    let (s, t) = (p + seq![x] + a, p + seq![y] + b);
    if p.len() == 0 {
        assert(s[0] == x && t[0] == y);
    } else {
        let q = p.drop_first();
        first_difference_decides(q, x, a, y, b);
        assert(s.drop_first() =~= q + seq![x] + a);
        assert(t.drop_first() =~= q + seq![y] + b);
        assert((p + a).drop_first() =~= q + a);
    }
}

} // verus!
