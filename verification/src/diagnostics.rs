//! Diagnostics in the output of compilers and linters.
use regex::Regex;
use vstd::prelude::*;
use vstd::string::*;
use vstd::utf8;

use crate::lines::{self, join, join_range, split_lines};
use crate::number::{self, parse_usize, to_column4};
use crate::paths::{self, path_join, Platform};
use crate::text::{self, chars_of, has_text, split_once, starts_with, string_of, strip_prefix, trim};

verus! {

/// How grave a diagnostic is.
#[derive(Debug, Clone, Copy, PartialEq, Eq, Structural)]
pub enum Level {
    Error,
    Warning,
}

/// A place in a source file. Lines and columns are counted from one.
#[derive(Debug)]
pub struct Location {
    pub file: String,
    pub line: usize,
    pub col: usize,
}

/// The lines of a source file around a place.
#[derive(Debug)]
pub struct SourceContext {
    pub file: String,
    pub line: usize,
    pub snippet: String,
}

/// A diagnostic. `raw` is the stretch of output that it was read from, where
/// that is kept.
#[derive(Debug)]
pub struct Diagnostic {
    pub level: Level,
    pub message: String,
    pub raw: Option<String>,
    pub location: Option<Location>,
    pub source_context: Option<SourceContext>,
}

/// A place, with its text as a sequence of characters.
#[verifier::ext_equal]
pub struct LocationModel {
    pub file: Seq<char>,
    pub line: usize,
    pub col: usize,
}

/// The lines around a place, with their text as a sequence of characters.
#[verifier::ext_equal]
pub struct ContextModel {
    pub file: Seq<char>,
    pub line: usize,
    pub snippet: Seq<char>,
}

/// A diagnostic, with its texts as sequences of characters.
#[verifier::ext_equal]
pub struct DiagnosticModel {
    pub level: Level,
    pub message: Seq<char>,
    pub raw: Option<Seq<char>>,
    pub location: Option<LocationModel>,
    pub source_context: Option<ContextModel>,
}

impl View for Location {
    type V = LocationModel;

    open spec fn view(&self) -> LocationModel {
        LocationModel { file: self.file@, line: self.line, col: self.col }
    }
}

impl View for SourceContext {
    type V = ContextModel;

    open spec fn view(&self) -> ContextModel {
        ContextModel { file: self.file@, line: self.line, snippet: self.snippet@ }
    }
}

/// An optional place, with its text as a sequence of characters.
pub open spec fn opt_location(l: Option<Location>) -> Option<LocationModel> {
    match l {
        Some(x) => Some(x@),
        None => None,
    }
}

/// Optional lines around a place, with their text as a sequence of characters.
pub open spec fn opt_context(c: Option<SourceContext>) -> Option<ContextModel> {
    match c {
        Some(x) => Some(x@),
        None => None,
    }
}

impl View for Diagnostic {
    type V = DiagnosticModel;

    open spec fn view(&self) -> DiagnosticModel {
        DiagnosticModel {
            level: self.level,
            message: self.message@,
            raw: text::opt_text(self.raw),
            location: opt_location(self.location),
            source_context: opt_context(self.source_context),
        }
    }
}

/// A list of diagnostics, with their texts as sequences of characters.
pub open spec fn models(list: Seq<Diagnostic>) -> Seq<DiagnosticModel> {
    Seq::new(list.len(), |i: int| list[i]@)
}

// ── rustc and clippy ────────────────────────────────────────────────────────

/// The level of a diagnostic that begins with the given line, if one does.
pub open spec fn rust_level(line: Seq<char>) -> Option<Level> {
    if text::begins_with(line, "error"@) {
        Some(Level::Error)
    } else if text::begins_with(line, "warning"@) {
        Some(Level::Warning)
    } else {
        None
    }
}

/// A line that only says that the compiler gave up.
pub open spec fn is_closing_remark(line: Seq<char>) -> bool {
    text::contains_text(line, "aborting due to"@) || text::contains_text(
        line,
        "could not compile"@,
    )
}

/// The message of a diagnostic that begins with the given line: what follows
/// the first colon and blank, or all of the line.
pub open spec fn rust_message(line: Seq<char>) -> Seq<char> {
    match text::split_at_first(line, ": "@) {
        Some((_, rest)) => text::trimmed(rest),
        None => text::trimmed(line),
    }
}

/// The place that is written as a file, a line and, it may be, a column, with
/// colons between them. Where the column is missing or no number, it is one.
pub open spec fn written_location(s: Seq<char>) -> Option<LocationModel> {
    match text::split_at_first(s, ":"@) {
        None => None,
        Some((file, rest)) => {
            let (row, column) = match text::split_at_first(rest, ":"@) {
                Some((a, b)) => (a, number::parsed_usize(b)),
                None => (rest, None),
            };
            match number::parsed_usize(row) {
                None => None,
                Some(line) => Some(
                    LocationModel {
                        file,
                        line,
                        col: match column {
                            Some(c) => c,
                            None => 1,
                        },
                    },
                ),
            }
        },
    }
}

/// The place that the lines `ls[j..hi]` name. The first line with an arrow
/// decides; the next diagnostic ends the search.
pub open spec fn named_location(ls: Seq<Seq<char>>, j: int, hi: int) -> Option<LocationModel>
    decreases hi - j,
{
    if j >= hi {
        None
    } else {
        match text::after_prefix(text::trimmed(ls[j]), "--> "@) {
            Some(rest) => written_location(rest),
            None => if rust_level(ls[j]) is Some {
                None
            } else {
                named_location(ls, j + 1, hi)
            },
        }
    }
}

/// Where the diagnostic ends whose later lines begin at `k`: before the next
/// diagnostic, or at the end.
pub open spec fn block_end(ls: Seq<Seq<char>>, k: int) -> int
    decreases ls.len() - k,
{
    if k < 0 || k >= ls.len() || rust_level(ls[k]) is Some {
        k
    } else {
        block_end(ls, k + 1)
    }
}

/// How many lines after the first one a place is looked for in.
pub const LOCATION_REACH: usize = 5;

/// The diagnostic of the given level that begins at line `i`.
pub open spec fn rust_diagnostic(ls: Seq<Seq<char>>, i: int, level: Level) -> DiagnosticModel {
    let reach = i + 1 + LOCATION_REACH;
    DiagnosticModel {
        level,
        message: rust_message(ls[i]),
        raw: Some(lines::joined(ls.subrange(i, block_end(ls, i + 1)), "\n"@)),
        location: named_location(
            ls,
            i + 1,
            if reach < ls.len() {
                reach
            } else {
                ls.len() as int
            },
        ),
        source_context: None,
    }
}

/// A diagnostic begins with the given line.
pub open spec fn is_heading(line: Seq<char>) -> bool {
    rust_level(line) is Some && !is_closing_remark(line)
}

/// The diagnostics in the lines from `i` on: one for each line with which a
/// diagnostic begins.
pub open spec fn rust_diagnostics_from(ls: Seq<Seq<char>>, i: int) -> Seq<DiagnosticModel>
    decreases ls.len() - i,
{
    if i < 0 || i >= ls.len() {
        seq![]
    } else if is_heading(ls[i]) {
        seq![rust_diagnostic(ls, i, rust_level(ls[i]).unwrap())] + rust_diagnostics_from(ls, i + 1)
    } else {
        rust_diagnostics_from(ls, i + 1)
    }
}

/// The later lines of a diagnostic begin no other one.
proof fn lemma_block_holds_no_heading(ls: Seq<Seq<char>>, k: int)
    requires
        0 <= k,
    ensures
        rust_diagnostics_from(ls, k) == rust_diagnostics_from(ls, block_end(ls, k)),
    decreases ls.len() - k,
{
    if k < ls.len() && rust_level(ls[k]) is None {
        lemma_block_holds_no_heading(ls, k + 1);
    }
}

/// The stretch of a diagnostic goes on until the next line with which one could
/// begin: between the two there is no such line.
pub proof fn stretches_do_not_overlap(ls: Seq<Seq<char>>, i: int)
    requires
        0 <= i < ls.len(),
    ensures
        i < block_end(ls, i + 1) <= ls.len(),
        forall|k: int| i < k < block_end(ls, i + 1) ==> rust_level(#[trigger] ls[k]) is None,
        block_end(ls, i + 1) < ls.len() ==> rust_level(ls[block_end(ls, i + 1)]) is Some,
{
    lemma_block_end(ls, i + 1);
}

proof fn lemma_block_end(ls: Seq<Seq<char>>, k: int)
    requires
        0 <= k <= ls.len(),
    ensures
        k <= block_end(ls, k) <= ls.len(),
        forall|j: int| k <= j < block_end(ls, k) ==> rust_level(#[trigger] ls[j]) is None,
        block_end(ls, k) < ls.len() ==> rust_level(ls[block_end(ls, k)]) is Some,
    decreases ls.len() - k,
{
    if k < ls.len() && rust_level(ls[k]) is None {
        lemma_block_end(ls, k + 1);
    }
}

fn level_of_line(line: &str) -> (r: Option<Level>)
    ensures
        r == rust_level(line@),
{
    let v = chars_of(line);
    if starts_with(&v, &chars_of("error")) {
        Some(Level::Error)
    } else if starts_with(&v, &chars_of("warning")) {
        Some(Level::Warning)
    } else {
        None
    }
}

fn closing_remark(line: &str) -> (r: bool)
    ensures
        r == is_closing_remark(line@),
{
    let v = chars_of(line);
    has_text(&v, &chars_of("aborting due to")) || has_text(&v, &chars_of("could not compile"))
}

fn message_of_line(line: &str) -> (r: String)
    ensures
        r@ == rust_message(line@),
{
    let v = chars_of(line);
    match split_once(&v, &chars_of(": ")) {
        Some((_, rest)) => string_of(trim(rest)),
        None => string_of(trim(&v)),
    }
}

fn read_location(s: &[char]) -> (r: Option<Location>)
    ensures
        opt_location(r) == written_location(s@),
{
    let colon = chars_of(":");
    match split_once(s, &colon) {
        None => None,
        Some((file, rest)) => {
            let (row, column) = match split_once(rest, &colon) {
                Some((a, b)) => (a, parse_usize(b)),
                None => (rest, None),
            };
            match parse_usize(row) {
                None => None,
                Some(line) => {
                    let col: usize = match column {
                        Some(c) => c,
                        None => 1,
                    };
                    Some(Location { file: string_of(file), line, col })
                },
            }
        },
    }
}

fn location_in(ls: &[String], from: usize, hi: usize) -> (r: Option<Location>)
    requires
        from <= hi <= ls@.len(),
    ensures
        opt_location(r) == named_location(text::texts(ls@), from as int, hi as int),
{
    let mut j = from;
    let arrow = chars_of("--> ");
    while j < hi
        invariant
            from <= j <= hi <= ls@.len(),
            arrow@ == "--> "@,
            named_location(text::texts(ls@), from as int, hi as int) == named_location(
                text::texts(ls@),
                j as int,
                hi as int,
            ),
        decreases hi - j,
    {
        assert(text::texts(ls@)[j as int] == ls@[j as int]@);
        let v = chars_of(ls[j].as_str());
        match strip_prefix(trim(&v), &arrow) {
            Some(rest) => {
                return read_location(rest);
            },
            None => {},
        }
        if level_of_line(ls[j].as_str()).is_some() {
            return None;
        }
        j += 1;
    }
    None
}

/// The diagnostics in an output: those in all of its lines.
pub open spec fn rust_diagnostics(output: Seq<char>) -> Seq<DiagnosticModel> {
    rust_diagnostics_from(lines::lines(output), 0)
}

/// The diagnostics that rustc or clippy wrote, without the source around them.
pub fn parse_rust_diagnostics(stderr: &str) -> (out: Vec<Diagnostic>)
    ensures
        models(out@) == rust_diagnostics(stderr@),
{
    let ls = split_lines(stderr);
    let ghost all = lines::lines(stderr@);
    let mut out: Vec<Diagnostic> = Vec::new();
    let mut i: usize = 0;
    assert(models(out@) + rust_diagnostics_from(all, 0) =~= rust_diagnostics_from(all, 0));
    while i < ls.len()
        invariant
            all == text::texts(ls@),
            all == lines::lines(stderr@),
            i <= ls.len(),
            models(out@) + rust_diagnostics_from(all, i as int) == rust_diagnostics_from(all, 0),
        decreases ls.len() - i,
    {
        assert(all[i as int] == ls@[i as int]@);
        let level = match level_of_line(ls[i].as_str()) {
            Some(level) => level,
            None => {
                i += 1;
                continue ;
            },
        };
        if closing_remark(ls[i].as_str()) {
            i += 1;
            continue ;
        }
        let ghost before = out@;
        let mut k: usize = i + 1;
        while k < ls.len() && level_of_line(ls[k].as_str()).is_none()
            invariant
                all == text::texts(ls@),
                i + 1 <= k <= ls.len(),
                block_end(all, i + 1) == block_end(all, k as int),
            decreases ls.len() - k,
        {
            assert(all[k as int] == ls@[k as int]@);
            k += 1;
        }
        assert(k < ls.len() ==> all[k as int] == ls@[k as int]@);
        let hi: usize = if ls.len() - (i + 1) > LOCATION_REACH {
            i + 1 + LOCATION_REACH
        } else {
            ls.len()
        };
        let diagnostic = Diagnostic {
            level,
            message: message_of_line(ls[i].as_str()),
            raw: Some(join_range(&ls, i, k, "\n")),
            location: location_in(&ls, i + 1, hi),
            source_context: None,
        };
        assert(diagnostic@ == rust_diagnostic(all, i as int, level));
        proof {
            lemma_block_holds_no_heading(all, i + 1);
        }
        out.push(diagnostic);
        assert(models(out@) =~= models(before).push(diagnostic@));
        assert(models(before) + rust_diagnostics_from(all, i as int) =~= models(out@)
            + rust_diagnostics_from(all, k as int));
        i = k;
    }
    assert(models(out@) + rust_diagnostics_from(all, i as int) =~= models(out@));
    out
}

/// Where the source of a place is to be looked for, from the root directory.
pub fn source_path(root: &str, location: &Location, platform: Platform) -> (r: String)
    ensures
        r@ == paths::joined(root@, location.file@, platform),
{
    path_join(root, location.file.as_str(), platform)
}

// ── source around a place ───────────────────────────────────────────────────

/// One line of source, with its number and with a mark where it is the line
/// in question.
pub open spec fn marked_line(line: Seq<char>, lineno: int, row: int) -> Seq<char> {
    (if lineno == row {
        ">>>"@
    } else {
        "   "@
    }) + " "@ + number::column4(lineno as nat) + " | "@ + line
}

/// The lines `ls[start..end]` of a source, numbered and marked.
pub open spec fn marked_lines(ls: Seq<Seq<char>>, start: int, end: int, row: int) -> Seq<
    Seq<char>,
> {
    Seq::new((end - start) as nat, |i: int| marked_line(ls[start + i], start + i + 1, row))
}

/// The position of line `row`, counted from zero.
pub open spec fn center(row: int) -> int {
    if row > 0 {
        row - 1
    } else {
        0
    }
}

/// The first of the lines around `row` when `before` lines before it are
/// shown.
pub open spec fn window_start(row: int, before: int) -> int {
    if center(row) > before {
        center(row) - before
    } else {
        0
    }
}

/// The end of the lines around `row`, of a source of `total` lines, when
/// `after` lines after it are shown.
pub open spec fn window_end(row: int, after: int, total: int) -> int {
    if center(row) + after + 1 < total {
        center(row) + after + 1
    } else {
        total
    }
}

/// The lines around a place in a source of the lines `ls`, `reach` on each
/// side.
pub open spec fn context_around(
    file: Seq<char>,
    row: usize,
    ls: Seq<Seq<char>>,
    reach: int,
) -> ContextModel {
    let start = window_start(row as int, reach);
    let end = window_end(row as int, reach, ls.len() as int);
    ContextModel {
        file,
        line: row,
        snippet: lines::joined(marked_lines(ls, start, end, row as int), "\n"@),
    }
}

fn surroundings(file: &str, row: usize, ls: &[String], reach: usize) -> (r: SourceContext)
    requires
        window_start(row as int, reach as int) <= ls@.len(),
        reach < 1000,
    ensures
        r@ == context_around(file@, row, text::texts(ls@), reach as int),
{
    let total = ls.len();
    let middle: usize = if row > 0 {
        row - 1
    } else {
        0
    };
    let start: usize = if middle > reach {
        middle - reach
    } else {
        0
    };
    let end: usize = if total > middle && total - middle > reach + 1 {
        middle + reach + 1
    } else {
        total
    };
    let ghost all = text::texts(ls@);
    let ghost want = marked_lines(all, start as int, end as int, row as int);
    let mut rows: Vec<String> = Vec::new();
    let mut i = start;
    while i < end
        invariant
            start <= i <= end <= ls.len(),
            all == text::texts(ls@),
            want == marked_lines(all, start as int, end as int, row as int),
            text::texts(rows@) == want.take(i - start),
        decreases end - i,
    {
        let ghost before = rows@;
        let mut out = if i + 1 == row {
            ">>>".to_owned()
        } else {
            "   ".to_owned()
        };
        out.append(" ");
        out.append(to_column4(i + 1).as_str());
        out.append(" | ");
        out.append(ls[i].as_str());
        assert(all[i as int] == ls@[i as int]@);
        assert(out@ == want[i - start]);
        rows.push(out);
        i += 1;
        assert(text::texts(rows@) =~= text::texts(before).push(out@));
        assert(want.take(i - start) =~= want.take(i - 1 - start).push(want[i - 1 - start]));
    }
    assert(want.take(i - start) =~= want);
    SourceContext { file: file.to_owned(), line: row, snippet: join(&rows, "\n") }
}

/// How many lines of source are shown on each side of a place that rustc names.
pub const RUST_REACH: usize = 5;

/// The lines around `row` begin within the source.
pub open spec fn row_in_reach(row: usize, source: Seq<char>) -> bool {
    window_start(row as int, RUST_REACH as int) <= lines::lines(source).len()
}

/// Whether the lines around `row` begin within the source.
pub fn is_row_in_reach(row: usize, source: &str) -> (r: bool)
    ensures
        r == row_in_reach(row, source@),
{
    let total = split_lines(source).len();
    assert(total == lines::lines(source@).len());
    row <= RUST_REACH + 1 || row - 1 - RUST_REACH <= total
}

/// What a diagnostic of rustc becomes when the source that it names has been
/// looked at: where it was read, the lines around the place are added.
pub open spec fn rust_with_source(d: DiagnosticModel, source: Option<Seq<char>>) -> DiagnosticModel {
    match (d.location, source) {
        (Some(loc), Some(src)) => DiagnosticModel {
            source_context: Some(context_around(loc.file, loc.line, lines::lines(src), RUST_REACH as int)),
            ..d
        },
        _ => d,
    }
}

/// Adds the lines around the place that a diagnostic of rustc names, where
/// their source was read.
pub fn add_rust_context(d: Diagnostic, source: Option<&str>) -> (r: Diagnostic)
    requires
        d.location matches Some(loc) ==> source matches Some(src) ==> row_in_reach(loc.line, src@),
    ensures
        r@ == rust_with_source(
            d@,
            match source {
                Some(src) => Some(src@),
                None => None,
            },
        ),
{
    let mut r = d;
    match (&r.location, source) {
        (Some(loc), Some(src)) => {
            let ls = split_lines(src);
            let context = surroundings(loc.file.as_str(), loc.line, &ls, RUST_REACH);
            r.source_context = Some(context);
        },
        _ => {},
    }
    r
}

/// A line that the source has is among the lines shown around it, and is the
/// one with the mark.
pub proof fn the_line_in_question_is_marked(ls: Seq<Seq<char>>, row: int, reach: int)
    requires
        1 <= row <= ls.len(),
        0 <= reach,
    ensures
        ({
            let start = window_start(row, reach);
            let end = window_end(row, reach, ls.len() as int);
            let shown = marked_lines(ls, start, end, row);
            &&& start <= row - 1 < end <= ls.len()
            &&& end - start <= 2 * reach + 1
            &&& shown[row - 1 - start] == ">>>"@ + " "@ + number::column4(row as nat) + " | "@
                + ls[row - 1]
            &&& forall|i: int|
                0 <= i < shown.len() && i != row - 1 - start ==> #[trigger] shown[i] == "   "@
                    + " "@ + number::column4((start + i + 1) as nat) + " | "@ + ls[start + i]
        }),
{
}

// ── other tools ─────────────────────────────────────────────────────────────

/// A line of output that names a file, a line and, it may be, a column before
/// its message.
pub const FINDING_PATTERN: &'static str = r"(?m)^(.+?):(\d+)(?::(\d+))?:?\s*(.*)$";

/// For each match of a regular expression in a text, from left to right, what
/// each of its groups matched; nothing for an expression that is not valid.
pub uninterp spec fn all_captures(pattern: Seq<char>, text: Seq<char>) -> Option<
    Seq<Seq<Option<Seq<char>>>>,
>;

/// The groups of one match, with their texts as sequences of characters.
pub open spec fn groups_model(groups: Seq<Option<String>>) -> Seq<Option<Seq<char>>> {
    Seq::new(groups.len(), |i: int| text::opt_text(groups[i]))
}

/// The groups of several matches, with their texts as sequences of characters.
pub open spec fn captures_model(captures: Seq<Vec<Option<String>>>) -> Seq<
    Seq<Option<Seq<char>>>,
> {
    Seq::new(captures.len(), |i: int| groups_model(captures[i]@))
}

/// `Regex::captures_iter`, on the expression that `Regex::new` makes of
/// `pattern`: the groups of every match, or nothing where the pattern is
/// refused. What an expression matches is left to `all_captures`.
#[verifier::external_body]
fn find_captures(pattern: &str, text: &str) -> (r: Option<Vec<Vec<Option<String>>>>)
    ensures
        match r {
            Some(captures) => all_captures(pattern@, text@) == Some(captures_model(captures@)),
            None => all_captures(pattern@, text@) is None,
        },
{
    let re = Regex::new(pattern).ok()?;
    let owned = |m: regex::Match| m.as_str().to_string();
    Some(re.captures_iter(text).map(|c| c.iter().map(|g| g.map(owned)).collect()).collect())
}

/// The text in lower case, as Unicode has it.
pub uninterp spec fn lower_case(s: Seq<char>) -> Seq<char>;

/// The lower case of a character, where it is an ASCII one.
pub open spec fn ascii_lower(c: char) -> char {
    if 'A' <= c <= 'Z' {
        ((c as u32) + 32) as char
    } else {
        c
    }
}

/// `str::to_lowercase`. In an ASCII text it changes each letter by itself; of
/// another text it is only said that the result depends on it alone.
#[verifier::external_body]
fn to_lower_case(s: &str) -> (r: String)
    ensures
        r@ == lower_case(s@),
        utf8::is_ascii_chars(s@) ==> r@ == Seq::new(s@.len(), |i: int| ascii_lower(s@[i])),
{
    s.to_lowercase()
}

/// A text in lower case: letter by letter where it is ASCII.
pub open spec fn lowered(s: Seq<char>) -> Seq<char> {
    if utf8::is_ascii_chars(s) {
        Seq::new(s.len(), |i: int| ascii_lower(s[i]))
    } else {
        lower_case(s)
    }
}

/// A place that a tool names, with what it says of it, before it is known
/// whether there is such a file.
#[derive(Debug)]
pub struct Finding {
    pub level: Level,
    pub message: String,
    pub location: Location,
    /// Where the file is to be looked for.
    pub path: String,
}

/// A finding, with its texts as sequences of characters.
#[verifier::ext_equal]
pub struct FindingModel {
    pub level: Level,
    pub message: Seq<char>,
    pub location: LocationModel,
    pub path: Seq<char>,
}

impl View for Finding {
    type V = FindingModel;

    open spec fn view(&self) -> FindingModel {
        FindingModel {
            level: self.level,
            message: self.message@,
            location: self.location@,
            path: self.path@,
        }
    }
}

/// A list of findings, with their texts as sequences of characters.
pub open spec fn finding_models(list: Seq<Finding>) -> Seq<FindingModel> {
    Seq::new(list.len(), |i: int| list[i]@)
}

/// What group `i` of a match holds, or the empty text where there is none.
pub open spec fn group_text(groups: Seq<Option<Seq<char>>>, i: int) -> Seq<char> {
    if 0 <= i < groups.len() {
        match groups[i] {
            Some(s) => s,
            None => seq![],
        }
    } else {
        seq![]
    }
}

/// The number in group `i` of a match, or one where there is none.
pub open spec fn group_number(groups: Seq<Option<Seq<char>>>, i: int) -> usize {
    match number::parsed_usize(group_text(groups, i)) {
        Some(n) => n,
        None => 1,
    }
}

/// The level of a message, of which the lower case is given: an error where it
/// speaks of one.
pub open spec fn level_of_lowered(lowered: Seq<char>) -> Level {
    if text::contains_text(lowered, "error"@) {
        Level::Error
    } else {
        Level::Warning
    }
}

/// The finding that the groups of a match make: a file, a line, a column and a
/// message. Without a file or a message there is none.
pub open spec fn finding_of(
    groups: Seq<Option<Seq<char>>>,
    root: Seq<char>,
    platform: Platform,
) -> Option<FindingModel> {
    let file = group_text(groups, 1);
    let message = group_text(groups, 4);
    if file.len() == 0 || message.len() == 0 {
        None
    } else {
        Some(
            FindingModel {
                level: level_of_lowered(lowered(message)),
                message,
                location: LocationModel {
                    file,
                    line: group_number(groups, 2),
                    col: group_number(groups, 3),
                },
                path: paths::joined(root, file, platform),
            },
        )
    }
}

/// The findings that matches make, in their order.
pub open spec fn findings_of(
    captures: Seq<Seq<Option<Seq<char>>>>,
    root: Seq<char>,
    platform: Platform,
) -> Seq<FindingModel>
    decreases captures.len(),
{
    if captures.len() == 0 {
        seq![]
    } else {
        let init = findings_of(captures.drop_last(), root, platform);
        match finding_of(captures.last(), root, platform) {
            Some(f) => init.push(f),
            None => init,
        }
    }
}

/// The level of a message, of which the lower case is given.
pub fn classify_lowered(lowered: &str) -> (r: Level)
    ensures
        r == level_of_lowered(lowered@),
{
    if has_text(&chars_of(lowered), &chars_of("error")) {
        Level::Error
    } else {
        Level::Warning
    }
}

fn group_string(groups: &Vec<Option<String>>, i: usize) -> (r: String)
    ensures
        r@ == group_text(groups_model(groups@), i as int),
{
    if i < groups.len() {
        match &groups[i] {
            Some(s) => {
                return s.clone();
            },
            None => {},
        }
    }
    String::new()
}

fn group_usize(groups: &Vec<Option<String>>, i: usize) -> (r: usize)
    ensures
        r == group_number(groups_model(groups@), i as int),
{
    match parse_usize(&chars_of(group_string(groups, i).as_str())) {
        Some(n) => n,
        None => 1,
    }
}

/// The findings that matches make, in their order. Files are looked for from
/// `root`.
pub fn collect_findings(
    captures: &Vec<Vec<Option<String>>>,
    root: &str,
    platform: Platform,
) -> (out: Vec<Finding>)
    ensures
        finding_models(out@) == findings_of(captures_model(captures@), root@, platform),
{
    let mut out: Vec<Finding> = Vec::new();
    let mut i: usize = 0;
    let ghost all = captures_model(captures@);
    while i < captures.len()
        invariant
            i <= captures@.len(),
            all == captures_model(captures@),
            finding_models(out@) == findings_of(all.take(i as int), root@, platform),
        decreases captures@.len() - i,
    {
        let ghost before = out@;
        let groups = &captures[i];
        let file = group_string(groups, 1);
        let message = group_string(groups, 4);
        proof {
            assert(all.take(i + 1).drop_last() =~= all.take(i as int));
            assert(all.take(i + 1).last() == groups_model(groups@));
        }
        if !file.as_str().is_empty() && !message.as_str().is_empty() {
            let level = classify_lowered(to_lower_case(message.as_str()).as_str());
            let path = path_join(root, file.as_str(), platform);
            let location = Location {
                file,
                line: group_usize(groups, 2),
                col: group_usize(groups, 3),
            };
            let finding = Finding { level, message, location, path };
            out.push(finding);
            assert(finding_models(out@) =~= finding_models(before).push(finding@));
        }
        i += 1;
    }
    assert(all.take(i as int) =~= all);
    out
}

/// The findings in the output of a tool, as `FINDING_PATTERN` finds them.
pub open spec fn generic_findings(
    output: Seq<char>,
    root: Seq<char>,
    platform: Platform,
) -> Seq<FindingModel> {
    match all_captures(FINDING_PATTERN@, output) {
        Some(captures) => findings_of(captures, root, platform),
        None => seq![],
    }
}

/// The findings in the output of a tool. Files are looked for from `root`.
pub fn parse_generic_diagnostics(output: &str, root: &str, platform: Platform) -> (out: Vec<
    Finding,
>)
    ensures
        finding_models(out@) == generic_findings(output@, root@, platform),
{
    match find_captures(FINDING_PATTERN, output) {
        Some(captures) => collect_findings(&captures, root, platform),
        None => {
            let out: Vec<Finding> = Vec::new();
            assert(finding_models(out@) =~= generic_findings(output@, root@, platform));
            out
        },
    }
}

/// What was found where a finding said that there is a file.
#[derive(Debug)]
pub enum SourceFile {
    /// There is nothing.
    Missing,
    /// There is something, but it holds no text that can be read.
    Unreadable,
    /// The text of the file.
    Text(String),
}

/// How many lines of source are shown on each side of a place that another
/// tool names.
pub const GENERIC_REACH: usize = 2;

/// The diagnostic that a finding becomes when its file has been looked for.
/// Where there is none, the finding is dropped; where the line is within the
/// text, the lines around it are added.
pub open spec fn confirmed_one(f: FindingModel, source: SourceFile) -> Option<DiagnosticModel> {
    let context = match source {
        SourceFile::Text(src) => if center(f.location.line as int) < lines::lines(src@).len() {
            Some(
                context_around(
                    f.location.file,
                    f.location.line,
                    lines::lines(src@),
                    GENERIC_REACH as int,
                ),
            )
        } else {
            None
        },
        _ => None,
    };
    if source is Missing {
        None
    } else {
        Some(
            DiagnosticModel {
                level: f.level,
                message: f.message,
                raw: None,
                location: Some(f.location),
                source_context: context,
            },
        )
    }
}

/// The diagnostics that findings become, in their order.
pub open spec fn confirmed(findings: Seq<FindingModel>, sources: Seq<SourceFile>) -> Seq<
    DiagnosticModel,
>
    decreases findings.len(),
{
    if findings.len() == 0 {
        seq![]
    } else {
        let init = confirmed(findings.drop_last(), sources.drop_last());
        match confirmed_one(findings.last(), sources.last()) {
            Some(d) => init.push(d),
            None => init,
        }
    }
}

fn confirm_one(f: &Finding, source: &SourceFile) -> (r: Option<Diagnostic>)
    ensures
        match r {
            Some(d) => confirmed_one(f@, *source) == Some(d@),
            None => confirmed_one(f@, *source) is None,
        },
{
    let source_context = match source {
        SourceFile::Missing => {
            return None;
        },
        SourceFile::Unreadable => None,
        SourceFile::Text(src) => {
            let ls = split_lines(src.as_str());
            assert(ls@.len() == lines::lines(src@).len());
            let row = f.location.line;
            if (row > 0 && row - 1 < ls.len()) || (row == 0 && ls.len() > 0) {
                Some(surroundings(f.location.file.as_str(), row, &ls, GENERIC_REACH))
            } else {
                None
            }
        },
    };
    Some(
        Diagnostic {
            level: f.level,
            message: f.message.clone(),
            raw: None,
            location: Some(
                Location {
                    file: f.location.file.clone(),
                    line: f.location.line,
                    col: f.location.col,
                },
            ),
            source_context,
        },
    )
}

/// The diagnostics that findings become when their files have been looked for:
/// `sources[i]` is what was found at the path of `findings[i]`.
pub fn confirm_findings(findings: &Vec<Finding>, sources: &Vec<SourceFile>) -> (out: Vec<
    Diagnostic,
>)
    requires
        findings@.len() == sources@.len(),
    ensures
        models(out@) == confirmed(finding_models(findings@), sources@),
{
    let mut out: Vec<Diagnostic> = Vec::new();
    let mut i: usize = 0;
    let ghost all = finding_models(findings@);
    while i < findings.len()
        invariant
            i <= findings@.len(),
            findings@.len() == sources@.len(),
            all == finding_models(findings@),
            models(out@) == confirmed(all.take(i as int), sources@.take(i as int)),
        decreases findings@.len() - i,
    {
        let ghost before = out@;
        proof {
            assert(all.take(i + 1).drop_last() =~= all.take(i as int));
            assert(sources@.take(i + 1).drop_last() =~= sources@.take(i as int));
            assert(all.take(i + 1).last() == findings@[i as int]@);
        }
        match confirm_one(&findings[i], &sources[i]) {
            Some(d) => {
                out.push(d);
                assert(models(out@) =~= models(before).push(d@));
            },
            None => {},
        }
        i += 1;
    }
    assert(all.take(i as int) =~= all);
    assert(sources@.take(i as int) =~= sources@);
    out
}

// ── laws on outputs, one after the other ────────────────────────────────────

/// The diagnostics in two outputs, one after the other, are those in the first
/// and then those in the second, where the first ends with a line feed and the
/// second is empty or begins with a line with which a diagnostic could begin.
pub proof fn diagnostics_of_two_outputs(a: Seq<char>, b: Seq<char>)
    requires
        a.len() == 0 || a.last() == '\n',
        lines::lines(b).len() == 0 || rust_level(lines::lines(b)[0]) is Some,
    ensures
        rust_diagnostics(a + b) == rust_diagnostics(a) + rust_diagnostics(b),
{
    lines::lines_of_two_texts(a, b);
    lemma_diagnostics_concat(lines::lines(a), lines::lines(b), 0);
}

proof fn lemma_diagnostics_concat(a: Seq<Seq<char>>, b: Seq<Seq<char>>, i: int)
    requires
        b.len() == 0 || rust_level(b[0]) is Some,
        0 <= i <= a.len(),
    ensures
        rust_diagnostics_from(a + b, i) == rust_diagnostics_from(a, i) + rust_diagnostics_from(
            b,
            0,
        ),
    decreases a.len() - i,
{
    let ls = a + b;
    let rest = rust_diagnostics_from(b, 0);
    if i == a.len() {
        lemma_diagnostics_shift(a, b, 0);
        assert(rust_diagnostics_from(a, i) + rest =~= rest);
    } else {
        lemma_diagnostics_concat(a, b, i + 1);
        assert(ls[i] == a[i]);
        if is_heading(a[i]) {
            let level = rust_level(a[i]).unwrap();
            lemma_block_end_concat(a, b, i + 1);
            lemma_block_end(a, i + 1);
            let e = block_end(a, i + 1);
            assert(ls.subrange(i, e) =~= a.subrange(i, e));
            let reach = i + 1 + LOCATION_REACH;
            if reach < a.len() {
                lemma_location_concat(a, b, i + 1, reach);
            } else {
                lemma_location_stops(
                    a,
                    b,
                    i + 1,
                    if reach < ls.len() {
                        reach
                    } else {
                        ls.len() as int
                    },
                );
            }
            assert(rust_diagnostic(ls, i, level) == rust_diagnostic(a, i, level));
        }
        assert(rust_diagnostics_from(ls, i) =~= rust_diagnostics_from(a, i) + rest);
    }
}

proof fn lemma_block_end_concat(a: Seq<Seq<char>>, b: Seq<Seq<char>>, k: int)
    requires
        b.len() == 0 || rust_level(b[0]) is Some,
        0 <= k <= a.len(),
    ensures
        block_end(a + b, k) == block_end(a, k),
    decreases a.len() - k,
{
    if k < a.len() {
        assert((a + b)[k] == a[k]);
        if rust_level(a[k]) is None {
            lemma_block_end_concat(a, b, k + 1);
        }
    } else if b.len() > 0 {
        assert((a + b)[k] == b[0]);
    }
}

proof fn lemma_location_concat(a: Seq<Seq<char>>, b: Seq<Seq<char>>, j: int, hi: int)
    requires
        0 <= j,
        hi <= a.len(),
    ensures
        named_location(a + b, j, hi) == named_location(a, j, hi),
    decreases hi - j,
{
    if j < hi {
        assert((a + b)[j] == a[j]);
        lemma_location_concat(a, b, j + 1, hi);
    }
}

proof fn lemma_location_stops(a: Seq<Seq<char>>, b: Seq<Seq<char>>, j: int, hi: int)
    requires
        b.len() == 0 || rust_level(b[0]) is Some,
        0 <= j <= a.len() <= hi <= a.len() + b.len(),
    ensures
        named_location(a + b, j, hi) == named_location(a, j, a.len() as int),
    decreases a.len() - j,
{
    if j < a.len() {
        assert((a + b)[j] == a[j]);
        lemma_location_stops(a, b, j + 1, hi);
    } else if j < hi {
        assert((a + b)[j] == b[0]);
        lemma_heading_is_no_arrow(b[0]);
    }
}

/// A line with which a diagnostic could begin names no place.
proof fn lemma_heading_is_no_arrow(line: Seq<char>)
    requires
        rust_level(line) is Some,
    ensures
        text::after_prefix(text::trimmed(line), "--> "@) is None,
{
    reveal_strlit("error");
    reveal_strlit("warning");
    reveal_strlit("--> ");
    if text::begins_with(line, "error"@) {
        assert(line.subrange(0, 5)[0] == 'e');
        assert(line[0] == 'e');
    } else {
        assert(line.subrange(0, 7)[0] == 'w');
        assert(line[0] == 'w');
    }
    let t = text::trimmed(line);
    assert(t == text::trimmed_end(line));
    lemma_trimmed_end_is_prefix(line);
    if text::begins_with(t, "--> "@) {
        assert(t.subrange(0, 4)[0] == '-');
        assert(t[0] == line[0]);
    }
}

proof fn lemma_trimmed_end_is_prefix(s: Seq<char>)
    ensures
        text::trimmed_end(s).is_prefix_of(s),
    decreases s.len(),
{
    if s.len() > 0 && text::is_white_space(s.last()) {
        lemma_trimmed_end_is_prefix(s.drop_last());
    }
}

/// The diagnostics from a line on do not depend on what stands before it.
proof fn lemma_diagnostics_shift(a: Seq<Seq<char>>, b: Seq<Seq<char>>, k: int)
    requires
        0 <= k <= b.len(),
    ensures
        rust_diagnostics_from(a + b, a.len() + k) == rust_diagnostics_from(b, k),
    decreases b.len() - k,
{
    let ls = a + b;
    let n = a.len() as int;
    if k < b.len() {
        lemma_diagnostics_shift(a, b, k + 1);
        assert(ls[n + k] == b[k]);
        if is_heading(b[k]) {
            let level = rust_level(b[k]).unwrap();
            lemma_block_end_shift(a, b, k + 1);
            lemma_block_end(b, k + 1);
            let e = block_end(b, k + 1);
            assert(ls.subrange(n + k, n + e) =~= b.subrange(k, e));
            let reach = k + 1 + LOCATION_REACH;
            let hi = if reach < b.len() {
                reach
            } else {
                b.len() as int
            };
            lemma_location_shift(a, b, k + 1, hi);
            assert(rust_diagnostic(ls, n + k, level) == rust_diagnostic(b, k, level));
        }
    }
}

proof fn lemma_block_end_shift(a: Seq<Seq<char>>, b: Seq<Seq<char>>, k: int)
    requires
        0 <= k <= b.len(),
    ensures
        block_end(a + b, a.len() + k) == a.len() + block_end(b, k),
    decreases b.len() - k,
{
    if k < b.len() {
        assert((a + b)[a.len() + k] == b[k]);
        if rust_level(b[k]) is None {
            lemma_block_end_shift(a, b, k + 1);
        }
    }
}

proof fn lemma_location_shift(a: Seq<Seq<char>>, b: Seq<Seq<char>>, j: int, hi: int)
    requires
        0 <= j,
        hi <= b.len(),
    ensures
        named_location(a + b, a.len() + j, a.len() + hi) == named_location(b, j, hi),
    decreases hi - j,
{
    if j < hi {
        assert((a + b)[a.len() + j] == b[j]);
        lemma_location_shift(a, b, j + 1, hi);
    }
}

/// The findings of matches, and of more matches after them, are those of the
/// first and then those of the others.
pub proof fn findings_of_two_lots(
    a: Seq<Seq<Option<Seq<char>>>>,
    b: Seq<Seq<Option<Seq<char>>>>,
    root: Seq<char>,
    platform: Platform,
)
    ensures
        findings_of(a + b, root, platform) == findings_of(a, root, platform) + findings_of(
            b,
            root,
            platform,
        ),
    decreases b.len(),
{
    if b.len() == 0 {
        assert(a + b =~= a);
        assert(findings_of(a, root, platform) + findings_of(b, root, platform) =~= findings_of(
            a,
            root,
            platform,
        ));
    } else {
        assert((a + b).drop_last() =~= a + b.drop_last());
        assert((a + b).last() == b.last());
        findings_of_two_lots(a, b.drop_last(), root, platform);
        assert(findings_of(a + b, root, platform) =~= findings_of(a, root, platform) + findings_of(
            b,
            root,
            platform,
        ));
    }
}

} // verus!
