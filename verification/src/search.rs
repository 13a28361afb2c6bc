//! The lines of a text that match a regular expression, with lines around them.
use regex::Regex;
use vstd::prelude::*;
use vstd::string::*;

use crate::lines::{self, join, split_lines};
use crate::number::{self, to_column4};
use crate::text;

verus! {

/// How many lines are shown before and after a match when nothing else is
/// asked for.
pub const DEFAULT_CONTEXT_LINES: usize = 2;

// ── regular expressions ─────────────────────────────────────────────────────

/// Why a regular expression is refused, where it is.
pub uninterp spec fn regex_error(pattern: Seq<char>) -> Option<Seq<char>>;

/// A regular expression matches somewhere in a line.
pub uninterp spec fn regex_matches(pattern: Seq<char>, line: Seq<char>) -> bool;

/// `Regex::new`: what it says of a pattern that it refuses, and nothing of one
/// that it takes.
#[verifier::external_body]
fn refusal(pattern: &str) -> (r: Option<String>)
    ensures
        text::opt_text(r) == regex_error(pattern@),
{
    Regex::new(pattern).err().map(|e| e.to_string())
}

/// `Regex::is_match`, on each line, of the expression that `Regex::new` makes
/// of a pattern that it takes. What an expression matches is left to
/// `regex_matches`.
#[verifier::external_body]
fn match_each(pattern: &str, lines: &Vec<String>) -> (flags: Vec<bool>)
    requires
        regex_error(pattern@) is None,
    ensures
        flags@ == Seq::new(lines@.len(), |i: int| regex_matches(pattern@, lines@[i]@)),
{
    let re = Regex::new(pattern).unwrap();
    lines.iter().map(|line| re.is_match(line)).collect()
}

// ── what is shown ───────────────────────────────────────────────────────────

/// A line before line `j`, at most `ctx` lines away, matches.
pub open spec fn near_before(flags: Seq<bool>, ctx: int, j: int) -> bool {
    exists|i: int| 0 <= i < j && j - i <= ctx && #[trigger] flags[i]
}

/// Line `j` matches, or a line after it, at most `ctx` lines away.
pub open spec fn near_after(flags: Seq<bool>, ctx: int, j: int) -> bool {
    exists|i: int| j <= i < flags.len() && i - j <= ctx && #[trigger] flags[i]
}

/// Line `j` is at most `ctx` lines away from a line that matches.
pub open spec fn is_shown(flags: Seq<bool>, ctx: int, j: int) -> bool {
    near_before(flags, ctx, j) || near_after(flags, ctx, j)
}

/// Line `j` is marked: it matches, and is not among the lines around an
/// earlier match.
pub open spec fn is_marked(flags: Seq<bool>, ctx: int, j: int) -> bool {
    flags[j] && !near_before(flags, ctx, j)
}

/// The positions of the first `n` lines that are shown.
pub open spec fn shown_indices(flags: Seq<bool>, ctx: int, n: int) -> Seq<int>
    decreases n,
{
    if n <= 0 {
        seq![]
    } else if is_shown(flags, ctx, n - 1) {
        shown_indices(flags, ctx, n - 1).push(n - 1)
    } else {
        shown_indices(flags, ctx, n - 1)
    }
}

/// A line as it is shown.
pub open spec fn hit_line(ls: Seq<Seq<char>>, flags: Seq<bool>, ctx: int, j: int) -> Seq<char> {
    number::column4((j + 1) as nat) + " | "@ + (if is_marked(flags, ctx, j) {
        ">>>"@
    } else {
        "   "@
    }) + " "@ + ls[j]
}

/// The lines at the given positions, as they are shown.
pub open spec fn hit_lines(
    ls: Seq<Seq<char>>,
    flags: Seq<bool>,
    ctx: int,
    indices: Seq<int>,
) -> Seq<Seq<char>> {
    Seq::new(indices.len(), |k: int| hit_line(ls, flags, ctx, indices[k]))
}

/// How many of the first `n` lines match.
pub open spec fn match_count(flags: Seq<bool>, n: int) -> nat
    decreases n,
{
    if n <= 0 {
        0
    } else {
        match_count(flags, n - 1) + (if flags[n - 1] {
            1nat
        } else {
            0nat
        })
    }
}

/// What a search found.
#[derive(Debug)]
pub struct Hits {
    pub matches: String,
    pub total_matches: usize,
}

/// `hits` is what a search shows of the lines `ls`, of which those with a flag
/// match.
pub open spec fn shows_hits(hits: Hits, ls: Seq<Seq<char>>, flags: Seq<bool>, ctx: int) -> bool {
    &&& hits.total_matches == match_count(flags, flags.len() as int)
    &&& hits.matches@ == lines::joined(
        hit_lines(ls, flags, ctx, shown_indices(flags, ctx, ls.len() as int)),
        "\n"@,
    )
}

/// For each line whether it or a line at most `ctx` lines after it matches, in
/// reverse order.
fn after_flags(flags: &Vec<bool>, ctx: usize) -> (out: Vec<bool>)
    ensures
        out@.len() == flags@.len(),
        forall|j: int|
            0 <= j < flags@.len() ==> #[trigger] out@[flags@.len() - 1 - j] == near_after(
                flags@,
                ctx as int,
                j,
            ),
{
    let n = flags.len();
    let mut out: Vec<bool> = Vec::new();
    let mut next: Option<usize> = None;
    let mut j: usize = n;
    while j > 0
        invariant
            n == flags@.len(),
            j <= n,
            out@.len() == n - j,
            match next {
                Some(q) => j <= q < n && flags@[q as int] && forall|i: int|
                    j <= i < q ==> !#[trigger] flags@[i],
                None => forall|i: int| j <= i < n ==> !#[trigger] flags@[i],
            },
            forall|i: int|
                j <= i < n ==> #[trigger] out@[n - 1 - i] == near_after(flags@, ctx as int, i),
        decreases j,
    {
        j -= 1;
        if flags[j] {
            next = Some(j);
        }
        let near = match next {
            Some(q) => q - j <= ctx,
            None => false,
        };
        proof {
            if let Some(q) = next {
                if near {
                    assert(flags@[q as int]);
                }
            }
            assert(near == near_after(flags@, ctx as int, j as int));
        }
        let ghost before = out@;
        out.push(near);
        assert forall|i: int| j <= i < n implies #[trigger] out@[n - 1 - i] == near_after(
            flags@,
            ctx as int,
            i,
        ) by {
            if i > j {
                assert(out@[n - 1 - i] == before[n - 1 - i]);
            }
        }
    }
    out
}

/// What a search shows of the lines `ls`, of which those with a flag match.
pub fn show_hits(ls: &Vec<String>, flags: &Vec<bool>, ctx: usize) -> (r: Hits)
    requires
        ls@.len() == flags@.len(),
    ensures
        shows_hits(r, text::texts(ls@), flags@, ctx as int),
{
    let n = ls.len();
    let after = after_flags(flags, ctx);
    let ghost all = text::texts(ls@);
    let ghost c = ctx as int;
    let mut rows: Vec<String> = Vec::new();
    let mut total: usize = 0;
    let mut prev: Option<usize> = None;
    let mut j: usize = 0;
    assert(text::texts(rows@) =~= hit_lines(all, flags@, c, shown_indices(flags@, c, 0)));
    while j < n
        invariant
            n == ls@.len(),
            n == flags@.len(),
            j <= n,
            all == text::texts(ls@),
            c == ctx,
            after@.len() == n,
            forall|i: int| 0 <= i < n ==> #[trigger] after@[n - 1 - i] == near_after(flags@, c, i),
            match prev {
                Some(p) => p < j && flags@[p as int] && forall|i: int|
                    p < i < j ==> !#[trigger] flags@[i],
                None => forall|i: int| 0 <= i < j ==> !#[trigger] flags@[i],
            },
            total == match_count(flags@, j as int),
            total <= j,
            text::texts(rows@) == hit_lines(all, flags@, c, shown_indices(flags@, c, j as int)),
        decreases n - j,
    {
        let before = match prev {
            Some(p) => j - p <= ctx,
            None => false,
        };
        proof {
            if let Some(p) = prev {
                if before {
                    assert(flags@[p as int]);
                }
            }
            assert(before == near_before(flags@, c, j as int));
            assert(after@[n - 1 - j] == near_after(flags@, c, j as int));
        }
        if before || after[n - 1 - j] {
            let ghost old_rows = rows@;
            let ghost old_indices = shown_indices(flags@, c, j as int);
            let mut row = to_column4(j + 1);
            row.append(" | ");
            row.append(
                if flags[j] && !before {
                    ">>>"
                } else {
                    "   "
                },
            );
            row.append(" ");
            row.append(ls[j].as_str());
            assert(all[j as int] == ls@[j as int]@);
            assert(row@ == hit_line(all, flags@, c, j as int));
            rows.push(row);
            assert(text::texts(rows@) =~= text::texts(old_rows).push(row@));
            assert(hit_lines(all, flags@, c, old_indices.push(j as int)) =~= hit_lines(
                all,
                flags@,
                c,
                old_indices,
            ).push(row@));
        }
        if flags[j] {
            prev = Some(j);
            total += 1;
        }
        j += 1;
    }
    Hits { matches: join(&rows, "\n"), total_matches: total }
}

/// For each line whether the regular expression matches in it.
pub open spec fn match_flags(pattern: Seq<char>, ls: Seq<Seq<char>>) -> Seq<bool> {
    Seq::new(ls.len(), |i: int| regex_matches(pattern, ls[i]))
}

/// The lines of `content` that match `pattern`, with `ctx` lines around them;
/// or why the pattern is refused.
pub fn search_lines(content: &str, pattern: &str, ctx: usize) -> (r: Result<Hits, String>)
    ensures
        match r {
            Ok(hits) => regex_error(pattern@) is None && shows_hits(
                hits,
                lines::lines(content@),
                match_flags(pattern@, lines::lines(content@)),
                ctx as int,
            ),
            Err(reason) => regex_error(pattern@) == Some(reason@),
        },
{
    match refusal(pattern) {
        Some(reason) => Err(reason),
        None => {
            let ls = split_lines(content);
            let flags = match_each(pattern, &ls);
            proof {
                let want = match_flags(pattern@, lines::lines(content@));
                assert(ls@.len() == want.len());
                assert forall|i: int| 0 <= i < want.len() implies flags@[i] == want[i] by {
                    assert(lines::lines(content@)[i] == ls@[i]@);
                }
                assert(flags@ =~= want);
            }
            Ok(show_hits(&ls, &flags, ctx))
        },
    }
}

// ── laws ────────────────────────────────────────────────────────────────────

/// The lines that are shown come in their order, each once, and are exactly
/// those at most `ctx` lines away from a match.
pub proof fn shown_lines_are_ordered_and_complete(flags: Seq<bool>, ctx: int, n: int)
    ensures
        ({
            let idx = shown_indices(flags, ctx, n);
            &&& forall|a: int, b: int| 0 <= a < b < idx.len() ==> idx[a] < idx[b]
            &&& forall|j: int|
                idx.contains(j) <==> 0 <= j < n && #[trigger] is_shown(flags, ctx, j)
        }),
    decreases n,
{
    let idx = shown_indices(flags, ctx, n);
    if n > 0 {
        shown_lines_are_ordered_and_complete(flags, ctx, n - 1);
        let init = shown_indices(flags, ctx, n - 1);
        assert forall|k: int| 0 <= k < init.len() implies 0 <= #[trigger] init[k] < n - 1 by {
            assert(init.contains(init[k]));
            assert(is_shown(flags, ctx, init[k]));
        }
        assert forall|j: int| idx.contains(j) <==> 0 <= j < n && #[trigger] is_shown(
            flags,
            ctx,
            j,
        ) by {
            if is_shown(flags, ctx, n - 1) {
                assert(idx == init.push(n - 1));
                if j == n - 1 {
                    assert(idx[init.len() as int] == j);
                } else if init.contains(j) {
                    let k = choose|k: int| 0 <= k < init.len() && init[k] == j;
                    assert(idx[k] == j);
                } else if idx.contains(j) {
                    let k = choose|k: int| 0 <= k < idx.len() && idx[k] == j;
                    assert(init[k] == j);
                }
            } else {
                assert(idx == init);
            }
        }
    }
}

/// Every line that matches is shown.
pub proof fn matches_are_shown(flags: Seq<bool>, ctx: int, j: int)
    requires
        0 <= ctx,
        0 <= j < flags.len(),
        flags[j],
    ensures
        is_shown(flags, ctx, j),
{
}

/// Without lines around the matches, exactly the matches are shown, and each
/// is marked.
pub proof fn no_context_shows_matches_only(flags: Seq<bool>, j: int)
    requires
        0 <= j < flags.len(),
    ensures
        is_shown(flags, 0, j) <==> flags[j],
        is_marked(flags, 0, j) <==> flags[j],
{
}

} // verus!
