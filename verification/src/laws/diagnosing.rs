//! Diagnostics: which lines give one, what is read of it, and the source that
//! is shown with it.
use vstd::prelude::*;
use vstd::utf8;

use crate::diagnostics;
use crate::diagnostics::{
    ContextModel, Diagnostic, DiagnosticModel, Finding, FindingModel, Level, Location,
    LocationModel, SourceContext, SourceFile,
};
use crate::laws;
use crate::laws::texts;
use crate::lines;
use crate::number;
use crate::paths;
use crate::paths::Platform;
use crate::text;

verus! {

// ── rustc and clippy ────────────────────────────────────────────────────────

/// The line begins with the word for an error or with that for a warning.
pub open spec fn names_a_level(line: Seq<char>) -> bool {
    laws::starts(line, "error"@) || laws::starts(line, "warning"@)
}

/// The line begins with one of the two words, and holds neither of the phrases
/// with which the compiler gives up.
pub open spec fn opens_a_diagnostic(line: Seq<char>) -> bool {
    &&& names_a_level(line)
    &&& !laws::holds(line, "aborting due to"@)
    &&& !laws::holds(line, "could not compile"@)
}

/// A diagnostic begins with a line exactly where the line begins with one of
/// the two words and holds neither of the closing phrases; the word says how
/// grave it is.
pub proof fn headings_are_told_by_their_words(line: Seq<char>)
    ensures
        diagnostics::is_heading(line) <==> opens_a_diagnostic(line),
        diagnostics::rust_level(line) == Some(Level::Error) <==> laws::starts(line, "error"@),
        diagnostics::rust_level(line) == Some(Level::Warning) <==> laws::starts(line, "warning"@),
        diagnostics::rust_level(line) is Some <==> names_a_level(line),
{
    texts::beginnings_are_parts(line, "error"@);
    texts::beginnings_are_parts(line, "warning"@);
    texts::containment_is_being_a_part(line, "aborting due to"@);
    texts::containment_is_being_a_part(line, "could not compile"@);
    reveal_strlit("error");
    reveal_strlit("warning");
    if text::begins_with(line, "error"@) && text::begins_with(line, "warning"@) {
        assert(line.subrange(0, 5)[0] == 'e');
        assert(line.subrange(0, 7)[0] == 'w');
    }
}

/// How many of the lines open a diagnostic.
pub open spec fn openings(ls: Seq<Seq<char>>) -> nat
    decreases ls.len(),
{
    if ls.len() == 0 {
        0
    } else {
        openings(ls.drop_last()) + if opens_a_diagnostic(ls.last()) {
            1nat
        } else {
            0
        }
    }
}

/// Every line that opens a diagnostic gives one, no other line does, and they
/// come in the order of the lines, each with the level that its line names.
pub proof fn every_opening_gives_a_diagnostic(output: Seq<char>, i: int)
    ensures
        ({
            let ls = lines::lines(output);
            let ds = diagnostics::rust_diagnostics(output);
            &&& ds.len() == openings(ls)
            &&& 0 <= i < ls.len() && opens_a_diagnostic(ls[i]) ==> {
                let at = openings(ls.take(i)) as int;
                &&& 0 <= at < ds.len()
                &&& laws::starts(ls[i], "error"@) ==> ds[at] == diagnostics::rust_diagnostic(
                    ls,
                    i,
                    Level::Error,
                )
                &&& laws::starts(ls[i], "warning"@) ==> ds[at] == diagnostics::rust_diagnostic(
                    ls,
                    i,
                    Level::Warning,
                )
            }
        }),
{
    let ls = lines::lines(output);
    assert(ls.take(0) =~= seq![]);
    assert(openings(ls.take(0)) == 0);
    lemma_openings(ls, 0, i);
}

proof fn lemma_openings(ls: Seq<Seq<char>>, k: int, i: int)
    requires
        0 <= k <= ls.len(),
    ensures
        ({
            let ds = diagnostics::rust_diagnostics_from(ls, k);
            &&& openings(ls.take(k)) + ds.len() == openings(ls)
            &&& k <= i < ls.len() && opens_a_diagnostic(ls[i]) ==> {
                let at = openings(ls.take(i)) - openings(ls.take(k));
                &&& 0 <= at < ds.len()
                &&& ds[at] == diagnostics::rust_diagnostic(
                    ls,
                    i,
                    diagnostics::rust_level(ls[i]).unwrap(),
                )
            }
        }),
        k <= i < ls.len() ==> (laws::starts(ls[i], "error"@) ==> diagnostics::rust_level(ls[i]) == Some(
            Level::Error,
        )) && (laws::starts(ls[i], "warning"@) ==> diagnostics::rust_level(ls[i]) == Some(
            Level::Warning,
        )),
    decreases ls.len() - k,
{
    if k <= i < ls.len() {
        headings_are_told_by_their_words(ls[i]);
    }
    if k == ls.len() {
        assert(ls.take(k) =~= ls);
    } else {
        lemma_openings(ls, k + 1, i);
        headings_are_told_by_their_words(ls[k]);
        assert(ls.take(k + 1).drop_last() =~= ls.take(k));
        assert(ls.take(k + 1).last() == ls[k]);
    }
}

/// Output of one line that opens a diagnostic, whatever comes with it, gives
/// exactly one where none of the other lines opens one.
pub proof fn one_opening_gives_one_diagnostic(line: Seq<char>, rest: Seq<Seq<char>>)
    requires
        opens_a_diagnostic(line),
        forall|k: int| 0 <= k < rest.len() ==> !opens_a_diagnostic(#[trigger] rest[k]),
    ensures
        ({
            let ds = diagnostics::rust_diagnostics_from(seq![line] + rest, 0);
            &&& ds.len() == 1
            &&& ds[0].level == (if laws::starts(line, "error"@) {
                Level::Error
            } else {
                Level::Warning
            })
        }),
{
    let ls = seq![line] + rest;
    headings_are_told_by_their_words(line);
    lemma_no_more_openings(ls, 1);
    assert(ls[0] == line);
}

proof fn lemma_no_more_openings(ls: Seq<Seq<char>>, k: int)
    requires
        0 <= k <= ls.len(),
        forall|j: int| k <= j < ls.len() ==> !opens_a_diagnostic(#[trigger] ls[j]),
    ensures
        diagnostics::rust_diagnostics_from(ls, k).len() == 0,
    decreases ls.len() - k,
{
    if k < ls.len() {
        headings_are_told_by_their_words(ls[k]);
        lemma_no_more_openings(ls, k + 1);
    }
}

/// The message is what follows the first colon and blank, without the blanks
/// around it; without a colon and a blank it is all of the line.
pub proof fn messages_follow_the_first_colon(line: Seq<char>, a: Seq<char>, m: Seq<char>)
    ensures
        line == laws::between(a, ": "@, m) && (forall|x: Seq<char>, y: Seq<char>|
            line == #[trigger] laws::between(x, ": "@, y) ==> a.len() <= x.len())
            ==> diagnostics::rust_message(line) == text::trimmed(m),
        !laws::holds(line, ": "@) ==> diagnostics::rust_message(line) == text::trimmed(line),
{
    let sep = ": "@;
    texts::splitting_is_around_the_first(line, sep);
    if line == laws::between(a, sep, m) && (forall|x: Seq<char>, y: Seq<char>|
        line == #[trigger] laws::between(x, sep, y) ==> a.len() <= x.len()) {
        let (x, y) = text::split_at_first(line, sep).unwrap();
        assert(x.len() == a.len());
        assert(laws::between(x, sep, y).skip((x.len() + sep.len()) as int) =~= y);
        assert(laws::between(a, sep, m).skip((a.len() + sep.len()) as int) =~= m);
    }
}

/// A diagnostic keeps its stretch of the output: from its line to the line
/// before the next one that names a level, or to the end.
pub proof fn the_stretch_of_a_diagnostic_is_kept(
    ls: Seq<Seq<char>>,
    i: int,
    end: int,
    level: Level,
)
    requires
        0 <= i < end <= ls.len(),
        forall|k: int| i < k < end ==> !names_a_level(#[trigger] ls[k]),
        end < ls.len() ==> names_a_level(ls[end]),
    ensures
        ({
            let d = diagnostics::rust_diagnostic(ls, i, level);
            &&& d.level == level
            &&& d.message == diagnostics::rust_message(ls[i])
            &&& d.raw == Some(lines::joined(ls.subrange(i, end), seq!['\n']))
            &&& d.source_context is None
        }),
{
    reveal_strlit("\n");
    assert("\n"@ =~= seq!['\n']);
    lemma_stretch(ls, i + 1, end);
}

proof fn lemma_stretch(ls: Seq<Seq<char>>, k: int, end: int)
    requires
        0 <= k <= end <= ls.len(),
        forall|j: int| k <= j < end ==> !names_a_level(#[trigger] ls[j]),
        end < ls.len() ==> names_a_level(ls[end]),
    ensures
        diagnostics::block_end(ls, k) == end,
    decreases end - k,
{
    if k < ls.len() {
        headings_are_told_by_their_words(ls[k]);
    }
    if k < end {
        lemma_stretch(ls, k + 1, end);
    }
}

/// The line has an arrow, after blanks or not.
pub open spec fn points(line: Seq<char>) -> bool {
    laws::starts(text::trimmed(line), "--> "@)
}

/// The place of a diagnostic is what its first line with an arrow names, among
/// the five lines after its own and before the next one that names a level. It
/// has none where none of these lines has an arrow.
pub proof fn the_first_arrow_names_the_place(
    ls: Seq<Seq<char>>,
    i: int,
    j: int,
    rest: Seq<char>,
    level: Level,
)
    requires
        0 <= i < j <= ls.len(),
        j <= i + 6,
        forall|k: int| i < k < j ==> !points(#[trigger] ls[k]) && !names_a_level(ls[k]),
    ensures
        ({
            let place = diagnostics::rust_diagnostic(ls, i, level).location;
            &&& j < ls.len() && j <= i + 5 && text::trimmed(ls[j]) == laws::between(
                seq![],
                "--> "@,
                rest,
            ) ==> place == diagnostics::written_location(rest)
            &&& j == ls.len() || j == i + 6 || (!points(ls[j]) && names_a_level(ls[j])) ==> place is None
        }),
{
    let hi = if i + 6 < ls.len() {
        i + 6
    } else {
        ls.len() as int
    };
    lemma_place(ls, i + 1, j, hi, rest);
}

proof fn lemma_place(ls: Seq<Seq<char>>, k: int, j: int, hi: int, rest: Seq<char>)
    requires
        0 <= k <= j <= hi <= ls.len(),
        forall|m: int| k <= m < j ==> !points(#[trigger] ls[m]) && !names_a_level(ls[m]),
    ensures
        j < hi && text::trimmed(ls[j]) == laws::between(seq![], "--> "@, rest)
            ==> diagnostics::named_location(ls, k, hi) == diagnostics::written_location(rest),
        j == hi || (!points(ls[j]) && names_a_level(ls[j])) ==> diagnostics::named_location(
            ls,
            k,
            hi,
        ) is None,
    decreases j - k,
{
    if k < hi {
        let t = text::trimmed(ls[k]);
        texts::beginnings_are_parts(t, "--> "@);
        texts::prefix_and_rest_make_the_text(t, "--> "@, rest);
        assert(laws::between(seq![], "--> "@, rest) =~= "--> "@ + rest);
        headings_are_told_by_their_words(ls[k]);
        if k < j {
            lemma_place(ls, k + 1, j, hi, rest);
        }
    }
}

/// A place is written as a file, a line and a column, with colons between them.
/// Without a number for the line there is no place; without one for the column,
/// the column is one.
pub proof fn places_are_written_with_colons(f: Seq<char>, row: Seq<char>, c: Seq<char>)
    requires
        laws::lacks(f, ':'),
        laws::lacks(row, ':'),
    ensures
        diagnostics::written_location(f + seq![':'] + row + seq![':'] + c) == (
        match number::parsed_usize(row) {
            Some(line) => Some(
                LocationModel {
                    file: f,
                    line,
                    col: match number::parsed_usize(c) {
                        Some(col) => col,
                        None => 1,
                    },
                },
            ),
            None => None,
        }),
        diagnostics::written_location(f + seq![':'] + row) == (match number::parsed_usize(row) {
            Some(line) => Some(LocationModel { file: f, line, col: 1 }),
            None => None,
        }),
        diagnostics::written_location(f) is None,
{
    reveal_strlit(":");
    assert(":"@ =~= seq![':']);
    let tail = row + seq![':'] + c;
    texts::splitting_at_a_character(f, ':', tail);
    texts::splitting_at_a_character(f, ':', row);
    texts::splitting_at_a_character(row, ':', c);
    assert(f + seq![':'] + row + seq![':'] + c =~= f + seq![':'] + tail);
}

// ── source around a place ───────────────────────────────────────────────────

/// The source around a line is shown from `reach` lines before it to `reach`
/// lines after it, as far as the source has them, one below the other, each with
/// its number; the line itself has a mark.
pub proof fn source_is_shown_around_the_line(
    file: Seq<char>,
    row: usize,
    ls: Seq<Seq<char>>,
    reach: int,
    start: int,
    shown: Seq<Seq<char>>,
)
    requires
        0 <= reach,
        row >= 1 ==> start == (if row - 1 > reach {
            row - 1 - reach
        } else {
            0
        }),
        row == 0 ==> start == 0,
        start <= ls.len(),
        ({
            let last = (if row >= 1 {
                row - 1
            } else {
                0
            }) + reach;
            shown.len() == (if last + 1 < ls.len() {
                last + 1
            } else {
                ls.len() as int
            }) - start
        }),
        forall|i: int|
            0 <= i < shown.len() ==> #[trigger] shown[i] == (if start + i + 1 == row {
                seq!['>', '>', '>', ' ']
            } else {
                seq![' ', ' ', ' ', ' ']
            }) + number::column4((start + i + 1) as nat) + seq![' ', '|', ' '] + ls[start + i],
    ensures
        diagnostics::context_around(file, row, ls, reach) == (ContextModel {
            file,
            line: row,
            snippet: lines::joined(shown, seq!['\n']),
        }),
{
    reveal_strlit("\n");
    reveal_strlit(">>>");
    reveal_strlit("   ");
    reveal_strlit(" ");
    reveal_strlit(" | ");
    assert("\n"@ =~= seq!['\n']);
    assert(">>>"@ + " "@ =~= seq!['>', '>', '>', ' ']);
    assert("   "@ + " "@ =~= seq![' ', ' ', ' ', ' ']);
    assert(" | "@ =~= seq![' ', '|', ' ']);
    let end = diagnostics::window_end(row as int, reach, ls.len() as int);
    assert(diagnostics::marked_lines(ls, start, end, row as int) =~= shown);
}

/// The source of a diagnostic of rustc is shown five lines on each side, where
/// there is a place and the source was read; nothing else of it changes, and
/// without a place or a source nothing does.
pub proof fn rust_source_is_added(d: DiagnosticModel, source: Option<Seq<char>>, row: usize)
    ensures
        ({
            let r = diagnostics::rust_with_source(d, source);
            &&& r.level == d.level && r.message == d.message && r.raw == d.raw && r.location
                == d.location
            &&& d.location is None || source is None ==> r == d
            &&& d.location matches Some(loc) ==> source matches Some(src) ==> r.source_context
                == Some(diagnostics::context_around(loc.file, loc.line, lines::lines(src), 5))
        }),
        source matches Some(src) ==> (diagnostics::row_in_reach(row, src) <==> row
            <= lines::lines(src).len() + 6),
{
}

// ── other tools ─────────────────────────────────────────────────────────────

/// A message is that of an error exactly where the word stands in its lower case
/// at any position, the first one among them.
pub proof fn the_word_makes_an_error(s: Seq<char>, a: Seq<char>, b: Seq<char>)
    ensures
        diagnostics::level_of_lowered(laws::between(a, "error"@, b)) == Level::Error,
        diagnostics::level_of_lowered("error"@ + b) == Level::Error,
        diagnostics::level_of_lowered(s) == Level::Error <==> laws::holds(s, "error"@),
        diagnostics::level_of_lowered(s) == Level::Warning <==> !laws::holds(s, "error"@),
{
    texts::parts_are_contained(a, "error"@, b);
    texts::parts_are_contained(seq![], "error"@, b);
    assert(laws::between(seq![], "error"@, b) =~= "error"@ + b);
    texts::containment_is_being_a_part(s, "error"@);
}

/// In an ASCII text the capitals from A to Z become the small letters, whose
/// codes are higher by 32, and every other character stays.
pub proof fn capitals_become_small_letters(s: Seq<char>, i: int)
    requires
        utf8::is_ascii_chars(s),
        0 <= i < s.len(),
    ensures
        diagnostics::lowered(s).len() == s.len(),
        65 <= s[i] as u32 <= 90 ==> diagnostics::lowered(s)[i] as u32 == s[i] as u32 + 32,
        !(65 <= s[i] as u32 <= 90) ==> diagnostics::lowered(s)[i] == s[i],
{
}

/// What a group of a match holds, or nothing.
pub open spec fn held(groups: Seq<Option<Seq<char>>>, i: int) -> Seq<char> {
    if 0 <= i < groups.len() && groups[i] is Some {
        groups[i].unwrap()
    } else {
        Seq::empty()
    }
}

/// A match makes a finding exactly where its first and fourth groups hold
/// something. They are the file and the message; the second and third are the
/// line and the column, one where they hold no number.
pub proof fn findings_are_read_from_the_groups(
    groups: Seq<Option<Seq<char>>>,
    root: Seq<char>,
    platform: Platform,
)
    ensures
        ({
            let r = diagnostics::finding_of(groups, root, platform);
            let (file, row, column, message) = (
                held(groups, 1),
                number::parsed_usize(held(groups, 2)),
                number::parsed_usize(held(groups, 3)),
                held(groups, 4),
            );
            &&& r is Some <==> file.len() > 0 && message.len() > 0
            &&& r matches Some(f) ==> {
                &&& f.message == message
                &&& f.location.file == file
                &&& f.location.line == (if row is Some {
                    row.unwrap()
                } else {
                    1
                })
                &&& f.location.col == (if column is Some {
                    column.unwrap()
                } else {
                    1
                })
                &&& f.path == paths::joined(root, file, platform)
                &&& f.level == Level::Error <==> laws::holds(
                    diagnostics::lowered(message),
                    "error"@,
                )
            }
            &&& diagnostics::findings_of(seq![groups], root, platform) == (if r is Some {
                seq![r.unwrap()]
            } else {
                seq![]
            })
        }),
{
    the_word_makes_an_error(diagnostics::lowered(held(groups, 4)), seq![], seq![]);
    let one = seq![groups];
    assert(one.drop_last() =~= seq![]);
    assert(diagnostics::findings_of(one.drop_last(), root, platform) =~= seq![]);
    assert(one.last() == groups);
}

/// The findings in an output are those of all matches of the one pattern.
pub proof fn findings_are_those_of_the_pattern(
    output: Seq<char>,
    root: Seq<char>,
    platform: Platform,
)
    ensures
        match diagnostics::all_captures(r"(?m)^(.+?):(\d+)(?::(\d+))?:?\s*(.*)$"@, output) {
            Some(captures) => diagnostics::generic_findings(output, root, platform)
                == diagnostics::findings_of(captures, root, platform),
            None => diagnostics::generic_findings(output, root, platform).len() == 0,
        },
{
}

/// A finding is dropped exactly where there is no file. Otherwise its level,
/// message and place are kept; where the text was read and has the line, two
/// lines on each side of it are shown, and else none.
pub proof fn findings_are_confirmed_by_their_files(f: FindingModel, source: SourceFile)
    ensures
        ({
            let r = diagnostics::confirmed_one(f, source);
            &&& r is None <==> source == SourceFile::Missing
            &&& r matches Some(d) ==> {
                &&& d.level == f.level && d.message == f.message && d.raw is None && d.location
                    == Some(f.location)
                &&& source == SourceFile::Unreadable ==> d.source_context is None
                &&& source matches SourceFile::Text(src) ==> {
                    let ls = lines::lines(src@);
                    let has_line = ls.len() > 0 && f.location.line <= ls.len();
                    &&& d.source_context is Some <==> has_line
                    &&& has_line ==> d.source_context == Some(
                        diagnostics::context_around(f.location.file, f.location.line, ls, 2),
                    )
                }
            }
            &&& diagnostics::confirmed(seq![f], seq![source]) == (if r is Some {
                seq![r.unwrap()]
            } else {
                seq![]
            })
        }),
{
    let (fs, ss) = (seq![f], seq![source]);
    assert(fs.drop_last() =~= seq![]);
    assert(diagnostics::confirmed(fs.drop_last(), ss.drop_last()) =~= seq![]);
    assert(fs.last() == f && ss.last() == source);
}

/// What findings become, and more findings after them, is what the first become
/// and then what the others become.
pub proof fn confirming_in_two_lots(
    a: Seq<FindingModel>,
    x: Seq<SourceFile>,
    b: Seq<FindingModel>,
    y: Seq<SourceFile>,
)
    requires
        a.len() == x.len(),
        b.len() == y.len(),
    ensures
        diagnostics::confirmed(a + b, x + y) == diagnostics::confirmed(a, x)
            + diagnostics::confirmed(b, y),
    decreases b.len(),
{
    if b.len() == 0 {
        assert(a + b =~= a);
        assert(x + y =~= x);
        assert(diagnostics::confirmed(a, x) + diagnostics::confirmed(b, y)
            =~= diagnostics::confirmed(a, x));
    } else {
        assert((a + b).drop_last() =~= a + b.drop_last());
        assert((x + y).drop_last() =~= x + y.drop_last());
        assert((a + b).last() == b.last());
        assert((x + y).last() == y.last());
        confirming_in_two_lots(a, x, b.drop_last(), y.drop_last());
        assert(diagnostics::confirmed(a + b, x + y) =~= diagnostics::confirmed(a, x)
            + diagnostics::confirmed(b, y));
    }
}

/// A place, the source around it, a diagnostic and a finding are seen by what
/// their fields hold, and a list by what its items hold.
pub proof fn fields_are_seen_as_they_are(
    l: Location,
    c: SourceContext,
    d: Diagnostic,
    f: Finding,
    ds: Seq<Diagnostic>,
    fs: Seq<Finding>,
    i: int,
)
    ensures
        l@.file == l.file@ && l@.line == l.line && l@.col == l.col,
        c@.file == c.file@ && c@.line == c.line && c@.snippet == c.snippet@,
        d@.level == d.level && d@.message == d.message@,
        d@.raw is Some <==> d.raw is Some,
        d.raw matches Some(x) ==> d@.raw == Some(x@),
        d@.location is Some <==> d.location is Some,
        d.location matches Some(x) ==> d@.location == Some(x@),
        d@.source_context is Some <==> d.source_context is Some,
        d.source_context matches Some(x) ==> d@.source_context == Some(x@),
        f@.level == f.level && f@.message == f.message@ && f@.location == f.location@ && f@.path
            == f.path@,
        diagnostics::models(ds).len() == ds.len(),
        0 <= i < ds.len() ==> diagnostics::models(ds)[i] == ds[i]@,
        diagnostics::finding_models(fs).len() == fs.len(),
        0 <= i < fs.len() ==> diagnostics::finding_models(fs)[i] == fs[i]@,
{
}

} // verus!
