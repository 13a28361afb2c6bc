//! The division of a text into lines, and lines put together to a text.
use vstd::prelude::*;
use vstd::string::*;

use crate::number::{self, to_column4};
use crate::text::{self, append_range, chars_of};

verus! {

/// The position of the first line feed at or after `from`, or the end of the
/// text.
pub open spec fn line_end(s: Seq<char>, from: int) -> int
    decreases s.len() - from,
{
    if from < 0 || from >= s.len() || s[from] == '\n' {
        from
    } else {
        line_end(s, from + 1)
    }
}

/// A line without the carriage return before its line feed.
pub open spec fn without_cr(line: Seq<char>) -> Seq<char> {
    if line.len() > 0 && line.last() == '\r' {
        line.drop_last()
    } else {
        line
    }
}

/// The lines of `s` from position `from` on.
pub open spec fn lines_from(s: Seq<char>, from: int) -> Seq<Seq<char>>
    decreases s.len() - from,
    when 0 <= from
{
    proof {
        line_end_is_next_line_feed(s, from);
    }
    if from >= s.len() {
        seq![]
    } else {
        let end = line_end(s, from);
        if end < s.len() {
            seq![without_cr(s.subrange(from, end))] + lines_from(s, end + 1)
        } else {
            seq![s.subrange(from, end)]
        }
    }
}

/// The lines of a text. A line ends with a line feed, or with a carriage
/// return and a line feed; neither belongs to the line. The end of the text
/// ends its last line, where that is not empty.
pub open spec fn lines(s: Seq<char>) -> Seq<Seq<char>> {
    lines_from(s, 0)
}

/// `line_end` stops at the first line feed, or at the end of the text.
pub proof fn line_end_is_next_line_feed(s: Seq<char>, from: int)
    requires
        0 <= from,
    ensures
        from <= line_end(s, from),
        from <= s.len() ==> line_end(s, from) <= s.len(),
        line_end(s, from) < s.len() ==> s[line_end(s, from)] == '\n',
        forall|i: int| from <= i < line_end(s, from) ==> s[i] != '\n',
    decreases s.len() - from,
{
    if from < s.len() && s[from] != '\n' {
        line_end_is_next_line_feed(s, from + 1);
    }
}

/// The parts of a list, one after the other, with `sep` between them.
pub open spec fn joined(parts: Seq<Seq<char>>, sep: Seq<char>) -> Seq<char>
    decreases parts.len(),
{
    if parts.len() == 0 {
        seq![]
    } else if parts.len() == 1 {
        parts[0]
    } else {
        joined(parts.drop_last(), sep) + sep + parts.last()
    }
}

/// Lines with their numbers before them, counted from `start`.
pub open spec fn numbered(ls: Seq<Seq<char>>, start: int) -> Seq<Seq<char>> {
    Seq::new(ls.len(), |i: int| number::column4((start + i) as nat) + " | "@ + ls[i])
}

// ── executable ──────────────────────────────────────────────────────────────

/// The lines of a text.
pub fn split_lines(s: &str) -> (out: Vec<String>)
    ensures
        text::texts(out@) == lines(s@),
{
    let v = chars_of(s);
    let mut out: Vec<String> = Vec::new();
    let mut pos: usize = 0;
    assert(text::texts(out@) + lines_from(s@, 0) =~= lines(s@));
    while pos < v.len()
        invariant
            v@ == s@,
            pos <= v.len(),
            text::texts(out@) + lines_from(s@, pos as int) == lines(s@),
        decreases v.len() - pos,
    {
        let ghost before = out@;
        let mut end = pos;
        while end < v.len() && v[end] != '\n'
            invariant
                v@ == s@,
                pos <= end <= v.len(),
                line_end(s@, pos as int) == line_end(s@, end as int),
            decreases v.len() - end,
        {
            end += 1;
        }
        let mut line = String::new();
        if end < v.len() {
            let stop: usize = if end > pos && v[end - 1] == '\r' {
                end - 1
            } else {
                end
            };
            append_range(&mut line, &v, pos, stop);
            assert(line@ =~= without_cr(s@.subrange(pos as int, end as int)));
            out.push(line);
            assert(text::texts(out@) =~= text::texts(before).push(line@));
            assert(text::texts(before) + lines_from(s@, pos as int) =~= text::texts(out@)
                + lines_from(s@, end + 1));
            pos = end + 1;
        } else {
            append_range(&mut line, &v, pos, end);
            assert(line@ =~= s@.subrange(pos as int, end as int));
            out.push(line);
            assert(text::texts(out@) =~= text::texts(before).push(line@));
            assert(text::texts(before) + lines_from(s@, pos as int) =~= text::texts(out@)
                + lines_from(s@, end as int));
            pos = end;
        }
    }
    assert(text::texts(out@) + lines_from(s@, pos as int) =~= text::texts(out@));
    out
}

/// The parts `parts[from..to]`, one after the other, with `sep` between them.
pub fn join_range(parts: &[String], from: usize, to: usize, sep: &str) -> (out: String)
    requires
        from <= to <= parts@.len(),
    ensures
        out@ == joined(text::texts(parts@).subrange(from as int, to as int), sep@),
{
    let mut out = String::new();
    let mut i = from;
    let ghost all = text::texts(parts@);
    while i < to
        invariant
            from <= i <= to <= parts@.len(),
            all == text::texts(parts@),
            out@ == joined(all.subrange(from as int, i as int), sep@),
        decreases to - i,
    {
        if i > from {
            out.append(sep);
        }
        out.append(parts[i].as_str());
        i += 1;
        proof {
            let now = all.subrange(from as int, i as int);
            assert(now.drop_last() =~= all.subrange(from as int, i - 1));
            assert(now.last() == parts@[i - 1]@);
            if i - 1 == from {
                assert(out@ =~= now[0]);
            }
        }
    }
    out
}

/// The parts of a list, one after the other, with `sep` between them.
pub fn join(parts: &[String], sep: &str) -> (out: String)
    ensures
        out@ == joined(text::texts(parts@), sep@),
{
    let out = join_range(parts, 0, parts.len(), sep);
    assert(text::texts(parts@).subrange(0, parts@.len() as int) =~= text::texts(parts@));
    out
}

/// The lines `ls[from..to]`, one after the other, with their numbers before
/// them, counted from `start_line`.
pub fn number_lines(ls: &[String], from: usize, to: usize, start_line: usize) -> (out: String)
    requires
        from <= to <= ls@.len(),
        start_line + (to - from) <= usize::MAX + 1,
    ensures
        out@ == joined(
            numbered(text::texts(ls@).subrange(from as int, to as int), start_line as int),
            "\n"@,
        ),
{
    let mut rows: Vec<String> = Vec::new();
    let mut i = from;
    let ghost part = text::texts(ls@).subrange(from as int, to as int);
    let ghost want = numbered(part, start_line as int);
    while i < to
        invariant
            from <= i <= to <= ls@.len(),
            start_line + (to - from) <= usize::MAX + 1,
            part == text::texts(ls@).subrange(from as int, to as int),
            want == numbered(part, start_line as int),
            text::texts(rows@) == want.take(i - from),
        decreases to - i,
    {
        let ghost before = rows@;
        let mut row = to_column4(start_line + (i - from));
        row.append(" | ");
        row.append(ls[i].as_str());
        assert(part[i - from] == ls@[i as int]@);
        assert(row@ == want[i - from]);
        rows.push(row);
        i += 1;
        assert(text::texts(rows@) =~= text::texts(before).push(row@));
        assert(want.take(i - from) =~= want.take(i - 1 - from).push(want[i - 1 - from]));
    }
    assert(want.take(i - from) =~= want);
    join(rows.as_slice(), "\n")
}

/// A text with its line numbers before its lines, counted from `start_line`.
pub fn add_line_numbers(content: &str, start_line: usize) -> (out: String)
    requires
        start_line + lines(content@).len() <= usize::MAX + 1,
    ensures
        out@ == joined(numbered(lines(content@), start_line as int), "\n"@),
{
    let ls = split_lines(content);
    let ghost all = lines(content@);
    assert(ls@.len() == all.len());
    assert(all.subrange(0, all.len() as int) =~= all);
    number_lines(&ls, 0, ls.len(), start_line)
}

// ── laws ────────────────────────────────────────────────────────────────────

/// No line holds a line feed.
pub proof fn lines_hold_no_line_feed(s: Seq<char>, k: int, i: int)
    requires
        0 <= k < lines(s).len(),
        0 <= i < lines(s)[k].len(),
    ensures
        lines(s)[k][i] != '\n',
{
    lemma_no_line_feed(s, 0, k, i);
}

proof fn lemma_no_line_feed(s: Seq<char>, from: int, k: int, i: int)
    requires
        0 <= from,
        0 <= k < lines_from(s, from).len(),
        0 <= i < lines_from(s, from)[k].len(),
    ensures
        lines_from(s, from)[k][i] != '\n',
    decreases s.len() - from,
{
    line_end_is_next_line_feed(s, from);
    let end = line_end(s, from);
    if from < s.len() && end < s.len() && k > 0 {
        assert(lines_from(s, from)[k] == lines_from(s, end + 1)[k - 1]);
        lemma_no_line_feed(s, end + 1, k - 1, i);
    }
}

/// Lines that stand as they are in a text whose lines end with line feeds
/// alone: none holds a line feed, none but the last ends with a carriage
/// return, and the last is not empty.
pub open spec fn are_plain(ls: Seq<Seq<char>>) -> bool {
    &&& forall|i: int, j: int|
        0 <= i < ls.len() && 0 <= j < ls[i].len() ==> #[trigger] ls[i][j] != '\n'
    &&& forall|i: int|
        0 <= i < ls.len() - 1 && (#[trigger] ls[i]).len() > 0 ==> ls[i].last() != '\r'
    &&& ls.len() > 0 ==> ls.last().len() > 0
}

/// Plain lines, put together with line feeds, are the lines of the text that
/// comes out.
pub proof fn lines_of_joined(ls: Seq<Seq<char>>)
    requires
        are_plain(ls),
    ensures
        lines(joined(ls, "\n"@)) == ls,
    decreases ls.len(),
{
    reveal_strlit("\n");
    let sep = "\n"@;
    assert(sep =~= seq!['\n']);
    let s = joined(ls, sep);
    if ls.len() == 0 {
        assert(lines(s) =~= ls);
    } else if ls.len() == 1 {
        assert forall|i: int| 0 <= i < s.len() implies s[i] != '\n' by {
            assert(s[i] == ls[0][i]);
        }
        lemma_line_end_after(s, 0, s.len() as int);
        assert(s.subrange(0, s.len() as int) =~= s);
        assert(lines(s) =~= ls);
    } else {
        let first = ls[0];
        let rest = ls.drop_first();
        assert forall|i: int, j: int|
            0 <= i < rest.len() && 0 <= j < rest[i].len() implies #[trigger] rest[i][j] != '\n' by {
            assert(rest[i][j] == ls[i + 1][j]);
        }
        assert forall|i: int| 0 <= i < rest.len() - 1 && (#[trigger] rest[i]).len() > 0 implies
            rest[i].last() != '\r' by {
            assert(rest[i] == ls[i + 1]);
        }
        lines_of_joined(rest);
        lemma_joined_first(ls, sep);
        let head = first + sep;
        let tail = joined(rest, sep);
        assert(s =~= head + tail);
        assert forall|i: int| 0 <= i < first.len() implies s[i] != '\n' by {
            assert(s[i] == ls[0][i]);
        }
        lemma_line_end_after(s, 0, first.len() as int);
        assert(s.subrange(0, first.len() as int) =~= first);
        lemma_lines_shift(head, tail, 0);
        assert(lines(s) =~= seq![first] + lines(tail));
        assert(ls =~= seq![first] + rest);
    }
}

/// A stretch without line feeds ends where the line feed or the text ends.
proof fn lemma_line_end_after(s: Seq<char>, from: int, end: int)
    requires
        0 <= from <= end <= s.len(),
        end < s.len() ==> s[end] == '\n',
        forall|i: int| from <= i < end ==> s[i] != '\n',
    ensures
        line_end(s, from) == end,
    decreases end - from,
{
    if from < end {
        lemma_line_end_after(s, from + 1, end);
    }
}

proof fn lemma_joined_first(parts: Seq<Seq<char>>, sep: Seq<char>)
    requires
        parts.len() >= 2,
    ensures
        joined(parts, sep) == parts[0] + sep + joined(parts.drop_first(), sep),
    decreases parts.len(),
{
    let rest = parts.drop_first();
    if parts.len() == 2 {
        assert(parts.drop_last()[0] == parts[0]);
        assert(joined(parts.drop_last(), sep) == parts[0]);
        assert(joined(rest, sep) == parts.last());
    } else {
        let init = parts.drop_last();
        lemma_joined_first(init, sep);
        assert(init.drop_first() =~= rest.drop_last());
        assert(joined(rest, sep) == joined(rest.drop_last(), sep) + sep + rest.last());
        assert(joined(parts, sep) =~= parts[0] + sep + joined(rest, sep));
    }
}

proof fn lemma_line_end_shift(head: Seq<char>, tail: Seq<char>, from: int)
    requires
        0 <= from,
    ensures
        line_end(head + tail, head.len() + from) == head.len() + line_end(tail, from),
    decreases tail.len() - from,
{
    if from < tail.len() {
        assert((head + tail)[head.len() + from] == tail[from]);
        if tail[from] != '\n' {
            lemma_line_end_shift(head, tail, from + 1);
        }
    }
}

/// The lines from a position on do not depend on what stands before it.
proof fn lemma_lines_shift(head: Seq<char>, tail: Seq<char>, from: int)
    requires
        0 <= from,
    ensures
        lines_from(head + tail, head.len() + from) == lines_from(tail, from),
    decreases tail.len() - from,
{
    let s = head + tail;
    if from < tail.len() {
        line_end_is_next_line_feed(tail, from);
        lemma_line_end_shift(head, tail, from);
        let end = line_end(tail, from);
        assert(s.subrange(head.len() + from, head.len() + end) =~= tail.subrange(from, end));
        if end < tail.len() {
            lemma_lines_shift(head, tail, end + 1);
        }
    }
}

/// The lines of two texts, one after the other, are those of the first and then
/// those of the second, where the first ends with a line feed.
pub proof fn lines_of_two_texts(a: Seq<char>, b: Seq<char>)
    requires
        a.len() == 0 || a.last() == '\n',
    ensures
        lines(a + b) == lines(a) + lines(b),
{
    lemma_lines_concat(a, b, 0);
}

proof fn lemma_lines_concat(a: Seq<char>, b: Seq<char>, from: int)
    requires
        a.len() == 0 || a.last() == '\n',
        0 <= from <= a.len(),
    ensures
        lines_from(a + b, from) == lines_from(a, from) + lines_from(b, 0),
    decreases a.len() - from,
{
    let s = a + b;
    if from == a.len() {
        lemma_lines_shift(a, b, 0);
        assert(lines_from(a, from) + lines_from(b, 0) =~= lines_from(b, 0));
    } else {
        line_end_is_next_line_feed(a, from);
        let end = line_end(a, from);
        assert(end < a.len()) by {
            if end == a.len() {
                assert(a[a.len() - 1] != '\n');
            }
        }
        assert forall|i: int| from <= i < end implies s[i] != '\n' by {
            assert(s[i] == a[i]);
        }
        assert(s[end] == a[end]);
        lemma_line_end_after(s, from, end);
        assert(s.subrange(from, end) =~= a.subrange(from, end));
        lemma_lines_concat(a, b, end + 1);
        assert(lines_from(s, from) =~= lines_from(a, from) + lines_from(b, 0));
    }
}

/// Parts put together in two lots give what they give in one.
pub proof fn joining_in_two_lots(a: Seq<Seq<char>>, b: Seq<Seq<char>>, sep: Seq<char>)
    requires
        a.len() > 0,
        b.len() > 0,
    ensures
        joined(a + b, sep) == joined(a, sep) + sep + joined(b, sep),
    decreases b.len(),
{
    let all = a + b;
    assert(all.last() == b.last());
    if b.len() == 1 {
        assert(all.drop_last() =~= a);
    } else {
        let init = b.drop_last();
        assert(all.drop_last() =~= a + init);
        joining_in_two_lots(a, init, sep);
        assert(joined(all, sep) =~= joined(a, sep) + sep + joined(b, sep));
    }
}

/// Two texts, one after the other, are numbered like the first alone and then
/// the second alone, counted on from where the first stopped.
pub proof fn numbering_goes_on(a: Seq<char>, b: Seq<char>, start: int)
    requires
        a.len() == 0 || a.last() == '\n',
    ensures
        numbered(lines(a + b), start) == numbered(lines(a), start) + numbered(
            lines(b),
            start + lines(a).len(),
        ),
        lines(a).len() > 0 && lines(b).len() > 0 ==> joined(
            numbered(lines(a + b), start),
            "\n"@,
        ) == joined(numbered(lines(a), start), "\n"@) + "\n"@ + joined(
            numbered(lines(b), start + lines(a).len()),
            "\n"@,
        ),
{
    lines_of_two_texts(a, b);
    let x = numbered(lines(a), start);
    let y = numbered(lines(b), start + lines(a).len());
    assert(numbered(lines(a + b), start) =~= x + y);
    if lines(a).len() > 0 && lines(b).len() > 0 {
        joining_in_two_lots(x, y, "\n"@);
    }
}

} // verus!
