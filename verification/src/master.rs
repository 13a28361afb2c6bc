//! The turns of a language model that reads or writes files with tools.
use vstd::prelude::*;
use vstd::string::*;

use crate::text::{self, append_range, chars_of, first_char, past_last_char};

verus! {

/// What the model is asked to do.
#[derive(Debug, Clone, Copy, PartialEq, Eq, Structural)]
pub enum Goal {
    Read,
    Write,
}

/// The first message of a conversation, which says what it is for.
pub open spec fn goal_text(kind: Goal, goal: Seq<char>) -> Seq<char> {
    (match kind {
        Goal::Read => "Read goal: "@,
        Goal::Write => "Write goal: "@,
    }) + goal
}

/// What the model is told first.
pub fn goal_message(kind: Goal, goal: &str) -> (s: String)
    ensures
        s@ == goal_text(kind, goal@),
{
    let mut s = match kind {
        Goal::Read => "Read goal: ".to_owned(),
        Goal::Write => "Write goal: ".to_owned(),
    };
    s.append(goal);
    s
}

/// A call of a tool that the model asks for.
#[derive(Debug)]
pub struct ToolCall {
    pub id: String,
    pub name: String,
    pub arguments: String,
}

/// What is told of a call of a tool while it runs.
pub open spec fn progress_text(name: Seq<char>, arguments: Seq<char>) -> Seq<char> {
    "\n[tool:"@ + name + "] "@ + arguments + "\n"@
}

/// What is shown when a tool is called.
pub fn tool_progress(call: &ToolCall) -> (s: String)
    ensures
        s@ == progress_text(call.name@, call.arguments@),
{
    let mut s = "\n[tool:".to_owned();
    s.append(call.name.as_str());
    s.append("] ");
    s.append(call.arguments.as_str());
    s.append("\n");
    s
}

// ── the last answer ─────────────────────────────────────────────────────────

/// A text is a JSON value.
pub uninterp spec fn is_json(s: Seq<char>) -> bool;

/// The truth value under `key` in a JSON object, if the text is one and has
/// one there.
pub uninterp spec fn json_flag(s: Seq<char>, key: Seq<char>) -> Option<bool>;

/// `serde_json::from_str` takes the text for a JSON value. The grammar is left
/// to `is_json`, except that the empty text is none.
#[verifier::external_body]
fn parses_as_json(s: &str) -> (r: bool)
    ensures
        r == is_json(s@),
        s@.len() == 0 ==> !r,
{
    serde_json::from_str::<serde_json::Value>(s).is_ok()
}

/// `Value::get` and `Value::as_bool`, on what `serde_json::from_str` makes of
/// the text. A text that is no JSON value has no flags.
#[verifier::external_body]
fn read_flag(s: &str, key: &str) -> (r: Option<bool>)
    ensures
        r == json_flag(s@, key@),
        !is_json(s@) ==> r is None,
{
    let value: serde_json::Value = serde_json::from_str(s).ok()?;
    value.get(key)?.as_bool()
}

/// The last answer of the model.
#[derive(Debug)]
pub enum FinalReply {
    /// The JSON value in the given text, without its description where that is
    /// to be left out.
    Json { text: String, drop_description: bool },
    /// The model did not answer with JSON, but with the given text.
    Plain { description: String },
}

/// There is an opening brace and a closing one.
pub open spec fn has_braces(s: Seq<char>) -> bool {
    text::next_char(s, '{', 0) < s.len() && text::last_char(s, '}', s.len() as int) >= 0
}

/// Where there is an opening brace and a closing one, the first opening one
/// does not come more than one place after the last closing one.
pub open spec fn braces_in_order(s: Seq<char>) -> bool {
    has_braces(s) ==> text::next_char(s, '{', 0) <= text::last_char(s, '}', s.len() as int) + 1
}

/// What stands from the first opening brace to the last closing one.
pub open spec fn brace_block(s: Seq<char>) -> Seq<char> {
    s.subrange(text::next_char(s, '{', 0), text::last_char(s, '}', s.len() as int) + 1)
}

/// The text that holds the answer, when `whole` says whether all of it is JSON
/// and `block` whether that from the first opening brace to the last closing
/// one is.
pub open spec fn answer_text(s: Seq<char>, whole: bool, block: bool) -> Option<Seq<char>> {
    if whole {
        Some(s)
    } else if has_braces(s) && block {
        Some(brace_block(s))
    } else {
        None
    }
}

fn block_text(s: &str) -> (r: Option<String>)
    requires
        braces_in_order(s@),
    ensures
        match r {
            Some(t) => has_braces(s@) && t@ == brace_block(s@),
            None => !has_braces(s@),
        },
{
    let v = chars_of(s);
    let start = first_char(&v, '{');
    let end = past_last_char(&v, '}');
    if start == v.len() || end == 0 {
        return None;
    }
    let mut t = String::new();
    append_range(&mut t, &v, start, end);
    assert(t@ =~= brace_block(s@));
    Some(t)
}

/// The text that holds the answer, when it is known whether all of it is JSON
/// and whether that from the first opening brace to the last closing one is.
pub fn choose_answer(s: &str, whole: bool, block: bool) -> (r: Option<String>)
    requires
        whole || braces_in_order(s@),
    ensures
        text::opt_text(r) == answer_text(s@, whole, block),
{
    if whole {
        return Some(s.to_owned());
    }
    match block_text(s) {
        Some(t) => if block {
            Some(t)
        } else {
            None
        },
        None => None,
    }
}

/// `r` is the last answer of a model that was asked for `kind` and wrote
/// `content`: the JSON value that this is, or that it holds, or else the text.
pub open spec fn is_final_reply(r: FinalReply, kind: Goal, content: Seq<char>) -> bool {
    match answer_text(content, is_json(content), is_json(brace_block(content))) {
        Some(s) => r matches FinalReply::Json { text, drop_description } && text@ == s
            && drop_description == (kind is Write && json_flag(s, "success"@) == Some(true)),
        None => r matches FinalReply::Plain { description } && description@ == content,
    }
}

/// The last answer of a model that was asked for `kind` and wrote `content`.
/// There is none where the content is not JSON and its braces are not in order.
pub fn final_reply(kind: Goal, content: &str) -> (r: Option<FinalReply>)
    ensures
        match r {
            Some(reply) => (is_json(content@) || braces_in_order(content@)) && is_final_reply(
                reply,
                kind,
                content@,
            ),
            None => !is_json(content@) && !braces_in_order(content@),
        },
{
    let whole = parses_as_json(content);
    let mut block = false;
    if !whole {
        let v = chars_of(content);
        let start = first_char(&v, '{');
        let end = past_last_char(&v, '}');
        if start < v.len() && end > 0 && start > end {
            return None;
        }
        match block_text(content) {
            Some(t) => {
                block = parses_as_json(t.as_str());
            },
            None => {},
        }
    }
    let answer = choose_answer(content, whole, block);
    assert(text::opt_text(answer) == answer_text(
        content@,
        is_json(content@),
        is_json(brace_block(content@)),
    ));
    match answer {
        Some(text) => {
            let drop_description = if kind == Goal::Write {
                match read_flag(text.as_str(), "success") {
                    Some(b) => b,
                    None => false,
                }
            } else {
                false
            };
            Some(FinalReply::Json { text, drop_description })
        },
        None => Some(FinalReply::Plain { description: content.to_owned() }),
    }
}

// ── a turn ──────────────────────────────────────────────────────────────────

/// What the model has said in a turn so far.
#[derive(Debug)]
pub struct Turn {
    pub content: String,
    pub calls: Vec<ToolCall>,
}

/// What comes after a turn.
#[derive(Debug)]
pub enum TurnEnd {
    /// The tools are called, and the model goes on. This is what it has said,
    /// if anything.
    Continue { content: Option<String> },
    /// The model is done. There is no answer where its last one has braces
    /// that are not in order.
    Done(Option<FinalReply>),
}

/// `r` is how a turn ends.
pub open spec fn is_turn_end(r: TurnEnd, turn: Turn, kind: Goal) -> bool {
    let said = turn.content@;
    if turn.calls@.len() > 0 {
        r matches TurnEnd::Continue { content } && text::opt_text(content) == (if said.len() == 0 {
            None
        } else {
            Some(said)
        })
    } else {
        r matches TurnEnd::Done(reply) && match reply {
            Some(f) => (is_json(said) || braces_in_order(said)) && is_final_reply(f, kind, said),
            None => !is_json(said) && !braces_in_order(said),
        }
    }
}

impl Turn {
    /// A turn in which nothing has been said.
    pub fn new() -> (t: Turn)
        ensures
            t.content@.len() == 0,
            t.calls@.len() == 0,
    {
        Turn { content: String::new(), calls: Vec::new() }
    }

    /// Takes a piece of text.
    pub fn on_token(&mut self, token: &str)
        ensures
            final(self).content@ == old(self).content@ + token@,
            final(self).calls == old(self).calls,
    {
        self.content.append(token);
    }

    /// Takes a call of a tool.
    pub fn on_tool_call(&mut self, call: ToolCall)
        ensures
            final(self).content == old(self).content,
            final(self).calls@ == old(self).calls@.push(call),
    {
        self.calls.push(call);
    }

    /// What comes after the turn, when the model was asked for `kind`: a turn
    /// without calls is the last one.
    pub fn finish(&self, kind: Goal) -> (r: TurnEnd)
        ensures
            is_turn_end(r, *self, kind),
    {
        if self.calls.len() > 0 {
            if self.content.as_str().is_empty() {
                TurnEnd::Continue { content: None }
            } else {
                TurnEnd::Continue { content: Some(self.content.clone()) }
            }
        } else {
            TurnEnd::Done(final_reply(kind, self.content.as_str()))
        }
    }
}

} // verus!
