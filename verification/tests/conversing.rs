use autocheck::master::{
    choose_answer, final_reply, goal_message, tool_progress, FinalReply, Goal, ToolCall, Turn,
    TurnEnd,
};

fn json(reply: Option<FinalReply>) -> (String, bool) {
    match reply {
        Some(FinalReply::Json { text, drop_description }) => (text, drop_description),
        other => panic!("{:?}", other),
    }
}

fn plain(reply: Option<FinalReply>) -> String {
    match reply {
        Some(FinalReply::Plain { description }) => description,
        other => panic!("{:?}", other),
    }
}

#[test]
fn the_goal_is_told_first() {
    assert_eq!(goal_message(Goal::Read, "find main"), "Read goal: find main");
    assert_eq!(goal_message(Goal::Write, "add main"), "Write goal: add main");
}

#[test]
fn calls_of_tools_are_shown() {
    let call = ToolCall {
        id: "1".to_string(),
        name: "read".to_string(),
        arguments: "{\"path\":\"/x\"}".to_string(),
    };
    assert_eq!(tool_progress(&call), "\n[tool:read] {\"path\":\"/x\"}\n");
}

#[test]
fn an_answer_in_json_is_taken_whole() {
    let s = " {\"success\": true, \"description\": \"d\"} ";
    assert_eq!(json(final_reply(Goal::Read, s)), (s.to_string(), false));
    assert_eq!(json(final_reply(Goal::Read, "[1]")), ("[1]".to_string(), false));
}

#[test]
fn a_successful_write_needs_no_description() {
    let yes = "{\"success\":true,\"description\":\"d\"}";
    let no = "{\"success\":false,\"description\":\"d\"}";
    let odd = "{\"success\":\"true\"}";
    assert_eq!(json(final_reply(Goal::Write, yes)), (yes.to_string(), true));
    assert_eq!(json(final_reply(Goal::Write, no)), (no.to_string(), false));
    assert_eq!(json(final_reply(Goal::Write, odd)), (odd.to_string(), false));
    assert_eq!(json(final_reply(Goal::Write, "{}")), ("{}".to_string(), false));
    assert_eq!(json(final_reply(Goal::Write, "true")), ("true".to_string(), false));
}

#[test]
fn json_is_found_among_other_text() {
    let s = "Sure!\n```json\n{\"success\": true}\n```\n";
    assert_eq!(json(final_reply(Goal::Write, s)), ("{\"success\": true}".to_string(), true));
    assert_eq!(json(final_reply(Goal::Read, s)), ("{\"success\": true}".to_string(), false));
}

#[test]
fn other_answers_are_descriptions() {
    for s in ["", "no json here", "{broken", "broken}", "a {not json} b", "}{"] {
        assert_eq!(plain(final_reply(Goal::Write, s)), s);
    }
}

#[test]
fn braces_that_are_not_in_order_give_no_answer() {
    assert!(final_reply(Goal::Read, "} then {").is_none());
}

#[test]
fn the_answer_is_chosen_by_what_is_json() {
    let s = "x {y} z";
    assert_eq!(choose_answer(s, true, true), Some(s.to_string()));
    assert_eq!(choose_answer(s, true, false), Some(s.to_string()));
    assert_eq!(choose_answer(s, false, true), Some("{y}".to_string()));
    assert_eq!(choose_answer(s, false, false), None);
    assert_eq!(choose_answer("none", false, true), None);
}

#[test]
fn a_turn_with_calls_goes_on() {
    let mut turn = Turn::new();
    let call = || ToolCall {
        id: "1".to_string(),
        name: "read".to_string(),
        arguments: "{}".to_string(),
    };
    turn.on_tool_call(call());
    assert!(matches!(turn.finish(Goal::Read), TurnEnd::Continue { content: None }));
    turn.on_token("let me ");
    turn.on_token("look");
    turn.on_tool_call(call());
    assert_eq!(turn.calls.len(), 2);
    match turn.finish(Goal::Read) {
        TurnEnd::Continue { content } => assert_eq!(content, Some("let me look".to_string())),
        other => panic!("{:?}", other),
    }
}

#[test]
fn a_turn_without_calls_is_the_last() {
    let mut turn = Turn::new();
    turn.on_token("{\"success\"");
    turn.on_token(":true}");
    match turn.finish(Goal::Write) {
        TurnEnd::Done(reply) => assert_eq!(json(reply), ("{\"success\":true}".to_string(), true)),
        other => panic!("{:?}", other),
    }
    match Turn::new().finish(Goal::Write) {
        TurnEnd::Done(reply) => assert_eq!(plain(reply), ""),
        other => panic!("{:?}", other),
    }
}
