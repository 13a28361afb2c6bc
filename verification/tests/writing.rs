use autocheck::diff::{diff, present_diff};
use autocheck::paths::Platform;
use autocheck::read::{read_range, ReadReply};
use autocheck::utils::OUTPUT_LIMIT;
use autocheck::write::{
    compose_text, continue_write, has_failed, is_run, not_found_error, start_write, store_failed,
    EditStep, StoreFailure, WriteReply, WriteRequest, WriteStart,
};

fn request(path: &str, new: &str) -> WriteRequest {
    WriteRequest {
        path: path.to_string(),
        new_string: new.to_string(),
        old_string: None,
        count: None,
        append: None,
        shebang: None,
    }
}

fn replacing(old: &str, new: &str, count: Option<usize>) -> WriteRequest {
    WriteRequest { old_string: Some(old.to_string()), count, ..request("/f", new) }
}

fn inserting(anchor: &str, new: &str) -> WriteRequest {
    WriteRequest { append: Some(true), ..replacing(anchor, new, None) }
}

fn stored(step: EditStep) -> (String, WriteReply) {
    match step {
        EditStep::Store { text, then } => (text, then),
        other => panic!("{:?}", other),
    }
}

fn refused(step: EditStep) -> WriteReply {
    match step {
        EditStep::Reply(reply) => reply,
        other => panic!("{:?}", other),
    }
}

fn error(reply: WriteReply) -> String {
    match reply {
        WriteReply::Error(message) => message,
        other => panic!("{:?}", other),
    }
}

#[test]
fn scripts_get_their_first_line() {
    let mut req = request("/f", "echo hi\n");
    assert_eq!(compose_text(&req), "echo hi\n");
    assert!(!is_run(&req));
    req.shebang = Some("/bin/sh".to_string());
    assert_eq!(compose_text(&req), "#!/bin/sh\necho hi\n");
    assert!(is_run(&req));
    req.shebang = Some("#!/usr/bin/env python3".to_string());
    assert_eq!(compose_text(&req), "#!/usr/bin/env python3\necho hi\n");
    req.shebang = Some(String::new());
    assert_eq!(compose_text(&req), "#!\necho hi\n");
}

#[test]
fn a_file_is_overwritten_in_a_directory_that_is_made() {
    match start_write(&request("/a/b/c.txt", "é"), Platform::Unix) {
        WriteStart::Overwrite { parent, text, then } => {
            assert_eq!(parent, Some("/a/b".to_string()));
            assert_eq!(text, "é");
            assert!(matches!(then, WriteReply::Written { bytes: 2 }));
        }
        other => panic!("{:?}", other),
    }
    match start_write(&request("c.txt", "x"), Platform::Unix) {
        WriteStart::Overwrite { parent, .. } => assert_eq!(parent, None),
        other => panic!("{:?}", other),
    }
    match start_write(&request("/", "x"), Platform::Unix) {
        WriteStart::Overwrite { parent, .. } => assert_eq!(parent, None),
        other => panic!("{:?}", other),
    }
}

#[test]
fn a_file_is_appended_to_in_a_directory_that_is_made() {
    let mut req = request("f", "more");
    req.append = Some(true);
    req.shebang = Some("x".to_string());
    match start_write(&req, Platform::Unix) {
        WriteStart::Append { parent, text, then } => {
            assert_eq!(parent, None);
            assert_eq!(text, "#!x\nmore");
            assert!(matches!(then, WriteReply::Appended { bytes: 8 }));
        }
        other => panic!("{:?}", other),
    }
    req.path = "/t/new/f".to_string();
    match start_write(&req, Platform::Unix) {
        WriteStart::Append { parent, .. } => assert_eq!(parent, Some("/t/new".to_string())),
        other => panic!("{:?}", other),
    }
    req.path = "C:\\t\\f".to_string();
    match start_write(&req, Platform::Windows) {
        WriteStart::Append { parent, .. } => assert_eq!(parent, Some("C:\\t".to_string())),
        other => panic!("{:?}", other),
    }
    req.append = Some(false);
    assert!(matches!(start_write(&req, Platform::Unix), WriteStart::Overwrite { .. }));
}

#[test]
fn changes_of_a_part_begin_with_the_file() {
    assert!(matches!(start_write(&replacing("a", "b", None), Platform::Unix), WriteStart::Load));
    assert!(matches!(start_write(&inserting("a", "b"), Platform::Unix), WriteStart::Load));
}

#[test]
fn one_occurrence_is_expected() {
    let (text, then) = stored(continue_write(&replacing("b", "X", None), Ok("abc")));
    assert_eq!(text, "aXc");
    assert!(matches!(then, WriteReply::Replaced { occurrences: 1 }));
    let reply = refused(continue_write(&replacing("b", "X", None), Ok("abcb")));
    assert_eq!(error(reply), "expected 1 occurrence(s) but found 2");
}

#[test]
fn as_many_as_expected_are_replaced() {
    let (text, then) = stored(continue_write(&replacing("b", "X", Some(2)), Ok("abcb")));
    assert_eq!(text, "aXcX");
    assert!(matches!(then, WriteReply::Replaced { occurrences: 2 }));
    let reply = refused(continue_write(&replacing("b", "X", Some(3)), Ok("abcb")));
    assert_eq!(error(reply), "expected 3 occurrence(s) but found 2");
}

#[test]
fn zero_replaces_all() {
    let (text, then) = stored(continue_write(&replacing("b", "X", Some(0)), Ok("b bb b")));
    assert_eq!(text, "X XX X");
    assert!(matches!(then, WriteReply::Replaced { occurrences: 4 }));
}

#[test]
fn what_was_put_in_is_not_replaced_again() {
    let (text, _) = stored(continue_write(&replacing("a", "xa", Some(2)), Ok("a b a")));
    assert_eq!(text, "xa b xa");
}

#[test]
fn a_replacement_can_be_undone() {
    let content = "let a = 1;\nlet b = 2;\n";
    let (text, _) = stored(continue_write(&replacing("a = 1", "c = 30", None), Ok(content)));
    let (back, then) = stored(continue_write(&replacing("c = 30", "a = 1", None), Ok(&text)));
    assert_eq!(back, content);
    assert!(matches!(then, WriteReply::Replaced { occurrences: 1 }));
}

#[test]
fn text_is_put_in_after_the_first_anchor() {
    let (text, then) = stored(continue_write(&inserting("fn", " new"), Ok("fn a fn b")));
    assert_eq!(text, "fn new a fn b");
    assert!(matches!(then, WriteReply::InsertedAfter { bytes: 4 }));
}

#[test]
fn a_missing_text_shows_the_file() {
    for req in [replacing("zzz", "X", Some(0)), replacing("zzz", "X", None), inserting("zzz", "X")] {
        let reply = refused(continue_write(&req, Ok("abc")));
        assert!(has_failed(&reply));
        match reply {
            WriteReply::NotFound { file_content, truncated, total_bytes } => {
                assert_eq!(file_content, "abc");
                assert!(!truncated);
                assert_eq!(total_bytes, 3);
            }
            other => panic!("{:?}", other),
        }
    }
}

#[test]
fn the_file_that_is_shown_is_cut() {
    let content = format!("x{}", "é".repeat(OUTPUT_LIMIT));
    match not_found_error(&content) {
        WriteReply::NotFound { file_content, truncated, total_bytes } => {
            assert_eq!(file_content.len(), OUTPUT_LIMIT - 1);
            assert!(content.starts_with(&file_content));
            assert!(truncated);
            assert_eq!(total_bytes, content.len());
        }
        other => panic!("{:?}", other),
    }
}

#[test]
fn a_file_that_cannot_be_read_cannot_be_changed() {
    let reply = refused(continue_write(&replacing("a", "b", None), Err("gone")));
    assert_eq!(error(reply), "read failed: gone");
    let reply = refused(continue_write(&inserting("a", "b"), Err("gone")));
    assert_eq!(error(reply), "read failed: gone");
}

#[test]
fn failures_to_store_are_told() {
    let reason = || "disk full".to_string();
    assert_eq!(error(store_failed(&StoreFailure::MakeDirectory(reason()))), "mkdir failed: disk full");
    assert_eq!(error(store_failed(&StoreFailure::Open(reason()))), "open failed: disk full");
    assert_eq!(error(store_failed(&StoreFailure::Write(reason()))), "write failed: disk full");
    assert!(has_failed(&store_failed(&StoreFailure::Write(reason()))));
    assert!(!has_failed(&WriteReply::Written { bytes: 0 }));
    assert!(!has_failed(&WriteReply::Appended { bytes: 0 }));
    assert!(!has_failed(&WriteReply::InsertedAfter { bytes: 0 }));
    assert!(!has_failed(&WriteReply::Replaced { occurrences: 1 }));
}

#[test]
fn what_was_written_is_read() {
    let text = match start_write(&request("/f", "one\n\nthree\n"), Platform::Unix) {
        WriteStart::Overwrite { text, .. } => text,
        other => panic!("{:?}", other),
    };
    match read_range(&text, None, None) {
        ReadReply::File(slice) => {
            assert_eq!(slice.content, "   1 | one\n   2 | \n   3 | three");
            assert_eq!(slice.total_lines, 3);
            assert!(!slice.truncated);
        }
        other => panic!("{:?}", other),
    }
}

// ── differences ─────────────────────────────────────────────────────────────

#[test]
fn differences_are_shown_in_the_unified_format() {
    assert_eq!(
        diff("x", Some("a\nb\nc\n"), "y", Some("a\nB\nc\n")),
        "--- a/x\n+++ b/y\n@@ -1,3 +1,3 @@\n a\n-b\n+B\n c\n"
    );
}

#[test]
fn equal_files_have_no_changes() {
    assert_eq!(diff("x", Some("a\n"), "y", Some("a\n")), "(no changes)");
    assert_eq!(diff("x", None, "y", None), "(no changes)");
    assert_eq!(diff("x", Some(""), "y", None), "(no changes)");
}

#[test]
fn a_file_that_cannot_be_read_counts_as_empty() {
    assert_eq!(
        diff("x", None, "y", Some("a\n")),
        "--- a/x\n+++ b/y\n@@ -0,0 +1 @@\n+a\n"
    );
}

#[test]
fn texts_that_differ_at_their_end_only_are_different() {
    let shown = diff("x", Some("a"), "y", Some("a\n"));
    assert!(shown.starts_with("--- a/x\n+++ b/y\n"));
    assert!(shown.contains("\\ No newline at end of file"));
}

#[test]
fn long_differences_are_cut() {
    let long = format!("x{}", "é".repeat(OUTPUT_LIMIT));
    let shown = present_diff(long.clone());
    let kept = shown.strip_suffix("... (truncated)").unwrap();
    assert_eq!(kept.len(), OUTPUT_LIMIT - 1);
    assert!(long.starts_with(kept));
    assert_eq!(present_diff("x".repeat(OUTPUT_LIMIT)), "x".repeat(OUTPUT_LIMIT));
    assert_eq!(present_diff(String::new()), "(no changes)");
}
