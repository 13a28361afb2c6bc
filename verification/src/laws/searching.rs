//! The lines that match, and those that are shown around them.
use vstd::prelude::*;

use crate::lines;
use crate::number;
use crate::read;
use crate::read::ReadReply;
use crate::search;

verus! {

/// A line is shown exactly where a line that matches is at most so many lines
/// away from it, before it or after it.
pub proof fn lines_near_a_match_are_shown(flags: Seq<bool>, ctx: int, j: int)
    requires
        0 <= j < flags.len(),
    ensures
        search::is_shown(flags, ctx, j) <==> exists|i: int|
            0 <= i < flags.len() && -ctx <= i - j <= ctx && #[trigger] flags[i],
{
    if search::is_shown(flags, ctx, j) {
        if search::near_before(flags, ctx, j) {
            let i = choose|i: int| 0 <= i < j && j - i <= ctx && #[trigger] flags[i];
            assert(flags[i]);
        } else {
            let i = choose|i: int| j <= i < flags.len() && i - j <= ctx && #[trigger] flags[i];
            assert(flags[i]);
        }
    }
    if exists|i: int| 0 <= i < flags.len() && -ctx <= i - j <= ctx && #[trigger] flags[i] {
        let i = choose|i: int|
            0 <= i < flags.len() && -ctx <= i - j <= ctx && #[trigger] flags[i];
        assert(flags[i]);
    }
}

/// A line has a mark exactly where it matches and no line does that is before it
/// and at most so many lines away.
pub proof fn the_first_match_of_a_stretch_is_marked(flags: Seq<bool>, ctx: int, j: int)
    requires
        0 <= j < flags.len(),
    ensures
        search::is_marked(flags, ctx, j) <==> flags[j] && forall|i: int|
            0 <= i < j && j - ctx <= i ==> !#[trigger] flags[i],
{
}

/// A line is shown with its number, a bar, the mark or blanks in its place, and
/// as it is.
pub proof fn hits_are_shown_with_numbers(
    ls: Seq<Seq<char>>,
    flags: Seq<bool>,
    ctx: int,
    j: int,
)
    requires
        0 <= j < ls.len(),
    ensures
        search::hit_line(ls, flags, ctx, j) == number::column4((j + 1) as nat) + seq![' ', '|', ' ']
            + (if search::is_marked(flags, ctx, j) {
            seq!['>', '>', '>']
        } else {
            seq![' ', ' ', ' ']
        }) + seq![' '] + ls[j],
{
    reveal_strlit(" | ");
    reveal_strlit(">>>");
    reveal_strlit("   ");
    reveal_strlit(" ");
    assert(" | "@ =~= seq![' ', '|', ' ']);
    assert(">>>"@ =~= seq!['>', '>', '>']);
    assert("   "@ =~= seq![' ', ' ', ' ']);
    assert(" "@ =~= seq![' ']);
}

/// The lines that are shown are all of those near a match and no others, each
/// once and in the order of the file.
pub proof fn shown_lines_are_in_order(flags: Seq<bool>, ctx: int, j: int)
    ensures
        ({
            let at = search::shown_indices(flags, ctx, flags.len() as int);
            &&& 0 <= j < flags.len() ==> (at.contains(j) <==> search::is_shown(flags, ctx, j))
            &&& forall|k: int| 0 <= k < at.len() ==> 0 <= #[trigger] at[k] < flags.len()
            &&& forall|k: int, m: int| 0 <= k < m < at.len() ==> #[trigger] at[k] < #[trigger] at[m]
        }),
{
    lemma_shown(flags, ctx, flags.len() as int, j);
}

proof fn lemma_shown(flags: Seq<bool>, ctx: int, n: int, j: int)
    requires
        0 <= n,
    ensures
        ({
            let at = search::shown_indices(flags, ctx, n);
            &&& 0 <= j < n ==> (at.contains(j) <==> search::is_shown(flags, ctx, j))
            &&& forall|k: int| 0 <= k < at.len() ==> 0 <= #[trigger] at[k] < n
            &&& forall|k: int, m: int| 0 <= k < m < at.len() ==> #[trigger] at[k] < #[trigger] at[m]
        }),
    decreases n,
{
    if n > 0 {
        lemma_shown(flags, ctx, n - 1, j);
        let before = search::shown_indices(flags, ctx, n - 1);
        let at = search::shown_indices(flags, ctx, n);
        if search::is_shown(flags, ctx, n - 1) {
            assert(at == before.push(n - 1));
            assert(at[before.len() as int] == n - 1);
            if before.contains(j) {
                let k = choose|k: int| 0 <= k < before.len() && before[k] == j;
                assert(at[k] == j);
            }
            if at.contains(j) && j != n - 1 {
                let k = choose|k: int| 0 <= k < at.len() && at[k] == j;
                assert(before[k] == j);
            }
        } else {
            if at.contains(n - 1) {
                let k = choose|k: int| 0 <= k < at.len() && at[k] == n - 1;
                assert(at[k] < n - 1);
            }
        }
    }
}

/// One more line that matches counts one more, and one that does not counts
/// nothing.
pub proof fn matches_are_counted_one_by_one(flags: Seq<bool>, b: bool)
    ensures
        search::match_count(seq![], 0) == 0,
        search::match_count(flags.push(b), flags.len() + 1int) == search::match_count(
            flags,
            flags.len() as int,
        ) + (if b {
            1int
        } else {
            0
        }),
{
    lemma_count(flags, b, flags.len() as int);
}

proof fn lemma_count(flags: Seq<bool>, b: bool, n: int)
    requires
        n <= flags.len(),
    ensures
        search::match_count(flags.push(b), n) == search::match_count(flags, n),
    decreases n,
{
    if n > 0 {
        lemma_count(flags, b, n - 1);
        assert(flags.push(b)[n - 1] == flags[n - 1]);
    }
}

/// No lines match exactly where none of them does.
pub proof fn a_count_of_none_means_none(flags: Seq<bool>)
    ensures
        search::match_count(flags, flags.len() as int) == 0 <==> forall|i: int|
            0 <= i < flags.len() ==> !#[trigger] flags[i],
{
    lemma_none(flags, flags.len() as int);
}

proof fn lemma_none(flags: Seq<bool>, n: int)
    requires
        n <= flags.len(),
    ensures
        search::match_count(flags, n) == 0 <==> forall|i: int|
            0 <= i < n ==> !#[trigger] flags[i],
    decreases n,
{
    if n > 0 {
        lemma_none(flags, n - 1);
    }
}

/// Each line is matched by itself.
pub proof fn every_line_is_matched(pattern: Seq<char>, ls: Seq<Seq<char>>, i: int)
    requires
        0 <= i < ls.len(),
    ensures
        search::match_flags(pattern, ls).len() == ls.len(),
        search::match_flags(pattern, ls)[i] == search::regex_matches(pattern, ls[i]),
{
}

/// A pattern that is refused is told with the reason; where no line matches, the
/// answer says so; and else it holds the lines near a match, one below the
/// other, and the number of those that match.
pub proof fn searches_are_answered(
    r: ReadReply,
    content: Seq<char>,
    pattern: Seq<char>,
    ctx: int,
    rows: Seq<Seq<char>>,
)
    requires
        read::is_search_reply(r, content, pattern, ctx),
    ensures
        ({
            let ls = lines::lines(content);
            let flags = search::match_flags(pattern, ls);
            let at = search::shown_indices(flags, ctx, ls.len() as int);
            let refused = search::regex_error(pattern);
            let found = exists|i: int| 0 <= i < ls.len() && search::regex_matches(
                pattern,
                #[trigger] ls[i],
            );
            &&& refused matches Some(reason) ==> (r matches ReadReply::Error(m) && m@
                == "invalid regex: "@ + reason)
            &&& refused is None && !found ==> r == ReadReply::NoMatches
            &&& refused is None && found ==> {
                &&& r matches ReadReply::Search(hits)
                &&& hits.total_matches == search::match_count(flags, flags.len() as int)
                &&& rows.len() == at.len() && (forall|k: int|
                    0 <= k < rows.len() ==> #[trigger] rows[k] == search::hit_line(
                        ls,
                        flags,
                        ctx,
                        at[k],
                    )) ==> hits.matches@ == lines::joined(rows, seq!['\n'])
            }
        }),
{
    reveal_strlit("\n");
    assert("\n"@ =~= seq!['\n']);
    let ls = lines::lines(content);
    let flags = search::match_flags(pattern, ls);
    let at = search::shown_indices(flags, ctx, ls.len() as int);
    a_count_of_none_means_none(flags);
    if exists|i: int| 0 <= i < ls.len() && search::regex_matches(pattern, #[trigger] ls[i]) {
        let i = choose|i: int| 0 <= i < ls.len() && search::regex_matches(pattern, #[trigger] ls[i]);
        assert(flags[i]);
    } else {
        assert forall|i: int| 0 <= i < flags.len() implies !#[trigger] flags[i] by {
            assert(!search::regex_matches(pattern, ls[i]));
        }
    }
    if rows.len() == at.len() && (forall|k: int|
        0 <= k < rows.len() ==> #[trigger] rows[k] == search::hit_line(ls, flags, ctx, at[k])) {
        assert(search::hit_lines(ls, flags, ctx, at) =~= rows);
    }
}

} // verus!
