//! Several requests at once, the conversation with a model, and differences.
use vstd::prelude::*;
use vstd::utf8;

use crate::batch;
use crate::batch::{Batch, BatchModel, Outcome, ReadAnswer, ReadItem, WriteItem};
use crate::clip;
use crate::diff;
use crate::languages::Language;
use crate::laws;
use crate::master;
use crate::master::{FinalReply, Goal, Turn, TurnEnd};
use crate::read::{ReadReply, ReadRequest};
use crate::text;
use crate::write::WriteRequest;

verus! {

// ── several requests ────────────────────────────────────────────────────────

/// The paths that failed, in their order.
pub open spec fn failures(outcomes: Seq<Outcome>) -> Seq<Seq<char>>
    decreases outcomes.len(),
{
    if outcomes.len() == 0 {
        seq![]
    } else {
        (match outcomes[0] {
            Outcome::Failed(path) => seq![path],
            Outcome::Written(_) => seq![],
        }) + failures(outcomes.drop_first())
    }
}

/// The paths that failed are all told, in the order in which they failed.
pub proof fn failed_paths_are_told_in_order(outcomes: Seq<Outcome>)
    ensures
        batch::after_all(outcomes).failed == failures(outcomes),
    decreases outcomes.len(),
{
    if outcomes.len() > 0 {
        let (init, last) = (outcomes.drop_last(), outcomes.last());
        failed_paths_are_told_in_order(init);
        lemma_failures(init, last);
        assert(outcomes =~= init.push(last));
    }
}

proof fn lemma_failures(init: Seq<Outcome>, last: Outcome)
    ensures
        failures(init.push(last)) == failures(init) + (match last {
            Outcome::Failed(path) => seq![path],
            Outcome::Written(_) => seq![],
        }),
    decreases init.len(),
{
    let all = init.push(last);
    if init.len() == 0 {
        assert(all.drop_first() =~= seq![]);
        assert(failures(all.drop_first()) =~= seq![]);
        assert(failures(init) =~= seq![]);
    } else {
        lemma_failures(init.drop_first(), last);
        assert(all.drop_first() =~= init.drop_first().push(last));
    }
}

/// One more failure is added at the end and changes nothing else; a project that
/// is not listed yet is added at the end, and one that is changes nothing.
pub proof fn one_more_outcome_is_added(
    b: BatchModel,
    path: Seq<char>,
    project: (Seq<char>, Language),
)
    ensures
        b.after(Outcome::Failed(path)).failed == b.failed + seq![path],
        b.after(Outcome::Failed(path)).affected == b.affected,
        b.after(Outcome::Written(None)) == b,
        b.after(Outcome::Written(Some(project))).failed == b.failed,
        b.after(Outcome::Written(Some(project))).affected == (if b.affected.contains(project) {
            b.affected
        } else {
            b.affected + seq![project]
        }),
        b.with_failure(path) == b.after(Outcome::Failed(path)),
        b.with_project(project) == b.after(Outcome::Written(Some(project))),
        batch::after_all(seq![]).failed.len() == 0 && batch::after_all(
            seq![],
        ).affected.len() == 0,
{
    assert(b.failed.push(path) =~= b.failed + seq![path]);
    assert(b.affected.push(project) =~= b.affected + seq![project]);
}

/// An item without a path is told as unknown, and any other one by its path.
pub proof fn refused_items_are_named(p: &str)
    ensures
        batch::refused_name(Some(p)) == p@,
        batch::refused_name(None) == "<unknown>"@,
{
}

/// A batch is seen by what its lists hold.
pub proof fn batches_are_seen_as_they_are(b: Batch, i: int)
    ensures
        b@.failed.len() == b.failed_paths@.len(),
        0 <= i < b.failed_paths@.len() ==> b@.failed[i] == b.failed_paths@[i]@,
        b@.affected.len() == b.affected@.len(),
        0 <= i < b.affected@.len() ==> b@.affected[i] == (b.affected@[i].0@, b.affected@[i].1),
{
}

/// An item with a path makes a request with all that the item holds, and one
/// without a path makes none.
pub proof fn read_items_become_requests(item: ReadItem)
    ensures
        match batch::read_request_of(item) {
            Some(req) => {
                &&& item.path == Some(req.path)
                &&& req.start_line == item.start_line
                &&& req.end_line == item.end_line
                &&& req.search_regex == item.search_regex
                &&& req.context_lines == item.context_lines
                &&& req.outline_only == item.outline_only
                &&& req.extract_symbol == item.extract_symbol
                &&& req.max_depth == item.max_depth
            },
            None => item.path is None,
        },
{
}

/// An item with a path and a new text makes a request with all that the item
/// holds; of another one it is told what is missing, the path before the text.
pub proof fn write_items_become_requests(r: Result<WriteRequest, String>, item: WriteItem)
    requires
        batch::is_write_request(r, item),
    ensures
        r is Ok <==> item.path is Some && item.new_string is Some,
        r matches Ok(req) ==> {
            &&& item.path == Some(req.path)
            &&& item.new_string == Some(req.new_string)
            &&& req.old_string == item.old_string
            &&& req.count == item.count
            &&& req.append == item.append
            &&& req.shebang == item.shebang
        },
        r matches Err(m) ==> m@ == (if item.path is None {
            "missing path"@
        } else {
            "missing new_string"@
        }),
{
}

/// Every item is answered: with what its request reads, or with why it makes
/// none.
pub proof fn every_item_is_answered<F: Fn(&ReadRequest) -> ReadReply>(
    a: ReadAnswer,
    item: ReadItem,
    read: F,
)
    requires
        batch::is_answer(a, item, read),
    ensures
        item.path is None ==> (a matches ReadAnswer::Refused(m) && m@ == "missing path"@),
        item.path is Some ==> (a matches ReadAnswer::Answered { request, reply } && Some(request)
            == batch::read_request_of(item) && call_ensures(read, (&request,), reply)),
{
}

// ── the conversation with a model ───────────────────────────────────────────

/// What a conversation begins with, and what is told of a call.
pub proof fn messages_of_a_conversation(
    goal: Seq<char>,
    name: Seq<char>,
    arguments: Seq<char>,
)
    ensures
        master::goal_text(Goal::Read, goal) == "Read goal: "@ + goal,
        master::goal_text(Goal::Write, goal) == "Write goal: "@ + goal,
        master::progress_text(name, arguments) == "\n[tool:"@ + name + "] "@ + arguments + "\n"@,
{
}

/// The block of an answer goes from the first opening brace to the last closing
/// one; without one of them there is no block, and where the last closing brace
/// comes before the first opening one they are not in order.
pub proof fn the_block_is_between_the_braces(a: Seq<char>, m: Seq<char>, b: Seq<char>)
    ensures
        laws::lacks(a, '{') && laws::lacks(b, '}') ==> {
            let s = a + seq!['{'] + m + seq!['}'] + b;
            &&& master::has_braces(s)
            &&& master::braces_in_order(s)
            &&& master::brace_block(s) == seq!['{'] + m + seq!['}']
        },
        laws::lacks(a, '{') || laws::lacks(a, '}') ==> !master::has_braces(a)
            && master::braces_in_order(a),
        laws::lacks(a, '{') && laws::lacks(m, '{') && laws::lacks(m, '}') && laws::lacks(b, '}')
            && m.len() > 0 ==> {
            let s = a + seq!['}'] + m + seq!['{'] + b;
            &&& master::has_braces(s)
            &&& !master::braces_in_order(s)
        },
        laws::lacks(a, '{') && laws::lacks(b, '}') ==> {
            let s = a + seq!['}', '{'] + b;
            &&& master::has_braces(s)
            &&& master::braces_in_order(s)
            &&& master::brace_block(s).len() == 0
        },
{
    if laws::lacks(a, '{') && laws::lacks(b, '}') {
        let s = a + seq!['}', '{'] + b;
        let j = a.len() as int;
        assert forall|k: int| 0 <= k < j + 1 implies s[k] != '{' by {
            if k < j {
                assert(s[k] == a[k]);
            }
        }
        lemma_first(s, '{', 0, j + 1);
        assert forall|k: int| j < k < s.len() implies s[k] != '}' by {
            if k > j + 1 {
                assert(s[k] == b[k - j - 2]);
            }
        }
        lemma_last(s, '}', s.len() as int, j);
    }
    if laws::lacks(a, '{') && laws::lacks(b, '}') {
        let s = a + seq!['{'] + m + seq!['}'] + b;
        let (i, j) = (a.len() as int, (a.len() + 1 + m.len()) as int);
        lemma_first(s, '{', 0, i);
        assert forall|k: int| j < k < s.len() implies s[k] != '}' by {
            assert(s[k] == b[k - j - 1]);
        }
        lemma_last(s, '}', s.len() as int, j);
        assert(s.subrange(i, j + 1) =~= seq!['{'] + m + seq!['}']);
    }
    if laws::lacks(a, '{') {
        lemma_first(a, '{', 0, a.len() as int);
    }
    if laws::lacks(a, '}') {
        lemma_last(a, '}', a.len() as int, -1);
    }
    if laws::lacks(a, '{') && laws::lacks(m, '{') && laws::lacks(m, '}') && laws::lacks(b, '}')
        && m.len() > 0 {
        let s = a + seq!['}'] + m + seq!['{'] + b;
        let (j, i) = (a.len() as int, (a.len() + 1 + m.len()) as int);
        assert forall|k: int| 0 <= k < i implies s[k] != '{' by {
            if k < j {
                assert(s[k] == a[k]);
            } else if k > j {
                assert(s[k] == m[k - j - 1]);
            }
        }
        lemma_first(s, '{', 0, i);
        assert forall|k: int| j < k < s.len() implies s[k] != '}' by {
            if k < i {
                assert(s[k] == m[k - j - 1]);
            } else if k > i {
                assert(s[k] == b[k - i - 1]);
            }
        }
        lemma_last(s, '}', s.len() as int, j);
    }
}

proof fn lemma_first(s: Seq<char>, c: char, from: int, end: int)
    requires
        0 <= from <= end <= s.len(),
        end < s.len() ==> s[end] == c,
        forall|i: int| from <= i < end ==> s[i] != c,
    ensures
        text::next_char(s, c, from) == end,
    decreases end - from,
{
    if from < end {
        lemma_first(s, c, from + 1, end);
    }
}

proof fn lemma_last(s: Seq<char>, c: char, to: int, at: int)
    requires
        -1 <= at < to <= s.len() || (at == -1 && to == 0),
        at >= 0 ==> s[at] == c,
        forall|i: int| at < i < to ==> s[i] != c,
    ensures
        text::last_char(s, c, to) == at,
    decreases to - at,
{
    if at < to - 1 {
        lemma_last(s, c, to - 1, at);
    }
}

/// An answer that is JSON is taken whole, and else its block where that is JSON;
/// what is neither is handed on as it is.
pub proof fn json_is_taken_out_of_an_answer(s: Seq<char>, whole: bool, block: bool)
    ensures
        whole ==> master::answer_text(s, whole, block) == Some(s),
        !whole && block && master::has_braces(s) ==> master::answer_text(s, whole, block) == Some(
            master::brace_block(s),
        ),
        !whole && !(block && master::has_braces(s)) ==> master::answer_text(
            s,
            whole,
            block,
        ) is None,
{
}

/// The last answer is JSON or plain text; the description is left out exactly
/// where a write has gone well.
pub proof fn last_answers_are_read(r: FinalReply, kind: Goal, content: Seq<char>)
    requires
        master::is_final_reply(r, kind, content),
    ensures
        ({
            let taken = master::answer_text(
                content,
                master::is_json(content),
                master::is_json(master::brace_block(content)),
            );
            &&& r is Json <==> taken is Some
            &&& r matches FinalReply::Json { text, drop_description } ==> Some(text@) == taken && (
            drop_description <==> kind == Goal::Write && master::json_flag(text@, "success"@)
                == Some(true))
            &&& r matches FinalReply::Plain { description } ==> description@ == content
        }),
{
}

/// A turn with calls goes on with what was said, if anything; one without calls
/// is the last, and what was said is the answer.
pub proof fn turns_go_on_while_tools_are_called(r: TurnEnd, turn: Turn, kind: Goal)
    requires
        master::is_turn_end(r, turn, kind),
    ensures
        r is Continue <==> turn.calls@.len() > 0,
        r matches TurnEnd::Continue { content } ==> {
            &&& content is Some <==> turn.content@.len() > 0
            &&& content matches Some(said) ==> said@ == turn.content@
        },
        r matches TurnEnd::Done(reply) ==> {
            &&& reply is None <==> !master::is_json(turn.content@) && !master::braces_in_order(
                turn.content@,
            )
            &&& reply matches Some(f) ==> master::is_final_reply(f, kind, turn.content@)
        },
{
}

// ── differences ─────────────────────────────────────────────────────────────

/// No difference is told as such; a difference of 8000 bytes or fewer is shown
/// whole, and of a longer one as many whole characters as fit, with a remark.
pub proof fn differences_are_shown(result: Seq<char>)
    ensures
        ({
            let bytes = utf8::encode_utf8(result).len();
            let shown = diff::diff_answer(result);
            &&& result.len() == 0 ==> shown == "(no changes)"@
            &&& result.len() > 0 && bytes <= 8000 ==> shown == result
            &&& bytes > 8000 ==> exists|k: int|
                {
                    &&& 0 <= k < result.len()
                    &&& shown == #[trigger] result.take(k) + "... (truncated)"@
                    &&& utf8::encode_utf8(result.take(k)).len() <= 8000
                    &&& utf8::encode_utf8(result.take(k + 1)).len() > 8000
                }
        }),
{
    let kept = clip::clipped(result, 8000);
    clip::clipped_is_longest_fitting(result, 8000);
    if utf8::encode_utf8(result).len() > 8000 {
        let k = kept.len() as int;
        if result.len() == 0 {
            assert(utf8::encode_utf8(result).len() == 0);
        }
        assert(result.take(result.len() as int) =~= result);
        if k == result.len() {
            assert(kept =~= result);
        }
        assert(kept =~= result.take(k));
        assert(clip::byte_len(result.take(k + 1)) > 8000);
    }
}

/// Two files are compared under their paths, after a letter and a slash that
/// tell the first from the second; a file that is not there is empty.
pub proof fn files_are_compared_under_their_paths(
    path1: Seq<char>,
    text1: Seq<char>,
    path2: Seq<char>,
    text2: Seq<char>,
    t: &str,
)
    ensures
        diff::unified_files(path1, text1, path2, text2) == diff::unified(
            seq!['a', '/'] + path1,
            text1,
            seq!['b', '/'] + path2,
            text2,
        ),
        diff::text_or_empty(Some(t)) == t@,
        diff::text_or_empty(None).len() == 0,
        diff::header_lines(path1, path2) == "--- "@ + path1 + "\n+++ "@ + path2 + "\n"@,
{
    reveal_strlit("a/");
    reveal_strlit("b/");
    assert("a/"@ =~= seq!['a', '/']);
    assert("b/"@ =~= seq!['b', '/']);
}

} // verus!
