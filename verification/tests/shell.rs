use std::cell::RefCell;

use autocheck::paths::Platform;
use autocheck::utils::{
    bash_reply, find_root, home_variable, path_env_with_cargo, path_variable, shell_invocation,
    truncate_output, BashOutcome, BashReply, DEFAULT_TIMEOUT_MS, OUTPUT_LIMIT,
};

fn root_among(present: &[&str], start: &str, is_file: bool, markers: &[&str]) -> Option<String> {
    find_root(start, is_file, markers, Platform::Unix, |p: &str| present.contains(&p))
}

#[test]
fn limits_are_as_documented() {
    assert_eq!(DEFAULT_TIMEOUT_MS, 10_000);
    assert_eq!(OUTPUT_LIMIT, 8_000);
}

#[test]
fn the_nearest_root_is_found() {
    let present = ["/work/Cargo.toml", "/work/inner/Cargo.toml"];
    let markers = ["Cargo.toml"];
    assert_eq!(
        root_among(&present, "/work/inner/src/lib.rs", true, &markers),
        Some("/work/inner".to_string())
    );
    assert_eq!(
        root_among(&present, "/work/other/lib.rs", true, &markers),
        Some("/work".to_string())
    );
    assert_eq!(root_among(&present, "/work/inner", false, &markers), Some("/work/inner".to_string()));
    assert_eq!(root_among(&present, "/else/where", false, &markers), None);
    assert_eq!(root_among(&present, "/", true, &markers), None);
}

#[test]
fn the_root_directory_and_the_empty_path_are_looked_at() {
    assert_eq!(root_among(&["/go.mod"], "/a/b", false, &["go.mod"]), Some("/".to_string()));
    assert_eq!(root_among(&["go.mod"], "a/b.go", true, &["go.mod"]), Some("".to_string()));
}

#[test]
fn without_markers_there_is_no_root() {
    assert_eq!(root_among(&["/a/x"], "/a", false, &[]), None);
}

#[test]
fn markers_are_looked_for_nearest_first_and_in_their_order() {
    let asked: RefCell<Vec<String>> = RefCell::new(Vec::new());
    let root = find_root("/a/f.py", true, &["x", "y"], Platform::Unix, |p: &str| {
        asked.borrow_mut().push(p.to_string());
        false
    });
    assert_eq!(root, None);
    assert_eq!(*asked.borrow(), vec!["/a/x", "/a/y", "/x", "/y"]);
}

#[test]
fn a_found_root_is_above_the_start() {
    let start = "/p/q/r";
    let root = root_among(&["/p/.git"], start, false, &["setup.py", ".git"]).unwrap();
    assert!(start.starts_with(&root));
}

#[test]
fn the_variables_depend_on_the_platform() {
    assert_eq!(home_variable(Platform::Unix), "HOME");
    assert_eq!(home_variable(Platform::Windows), "USERPROFILE");
    assert_eq!(path_variable(Platform::Unix), "PATH");
    assert_eq!(path_variable(Platform::Windows), "Path");
}

fn some(s: &str) -> Option<String> {
    Some(s.to_string())
}

#[test]
fn cargo_is_put_before_the_search_path() {
    assert_eq!(
        path_env_with_cargo(some("/bin"), some("/bin"), some("/home/u"), Platform::Unix),
        "/home/u/.cargo/bin:/bin"
    );
    assert_eq!(
        path_env_with_cargo(None, some("C:\\x"), some("C:\\Users\\u"), Platform::Windows),
        "C:\\Users\\u\\.cargo\\bin;C:\\x"
    );
    assert_eq!(
        path_env_with_cargo(None, None, some("/home/u"), Platform::Unix),
        "/home/u/.cargo/bin:"
    );
    assert_eq!(path_env_with_cargo(some("/bin"), some("/x"), None, Platform::Unix), "/bin");
    assert_eq!(path_env_with_cargo(None, None, None, Platform::Unix), "");
}

#[test]
fn cargo_is_added_only_once() {
    let once = path_env_with_cargo(some("/bin"), None, some("/h"), Platform::Unix);
    let twice = path_env_with_cargo(Some(once.clone()), None, some("/h"), Platform::Unix);
    assert_eq!(once, twice);
}

#[test]
fn short_output_is_shown_whole() {
    let shown = truncate_output("x".repeat(OUTPUT_LIMIT));
    assert_eq!(shown.output.len(), OUTPUT_LIMIT);
    assert!(!shown.truncated);
    assert_eq!(shown.total_bytes, None);
    assert_eq!(shown.shown_bytes, None);
}

#[test]
fn long_output_is_cut_after_so_many_characters() {
    let shown = truncate_output("x".repeat(OUTPUT_LIMIT + 1));
    assert_eq!(shown.output, "x".repeat(OUTPUT_LIMIT));
    assert!(shown.truncated);
    assert_eq!(shown.total_bytes, Some(OUTPUT_LIMIT + 1));
    assert_eq!(shown.shown_bytes, Some(OUTPUT_LIMIT));

    let wide = "é".repeat(OUTPUT_LIMIT + 2);
    let shown = truncate_output(wide.clone());
    assert_eq!(shown.total_bytes, Some(16_004));
    assert_eq!(shown.shown_bytes, Some(16_000));
    assert!(wide.starts_with(&shown.output));
    assert_eq!(shown.output.chars().count(), OUTPUT_LIMIT);
}

#[test]
fn wide_characters_count_once() {
    let shown = truncate_output("€".repeat(3000));
    assert_eq!(shown.output, "€".repeat(3000));
    assert!(!shown.truncated);
}

#[test]
fn roots_are_found_on_windows() {
    let root = find_root("C:\\w\\src\\lib.rs", true, &["Cargo.toml"], Platform::Windows, |p: &str| {
        p == "C:\\w\\Cargo.toml"
    });
    assert_eq!(root, Some("C:\\w".to_string()));
}

#[test]
fn commands_run_in_the_shell_of_the_platform() {
    assert_eq!(
        shell_invocation("ls -l", Platform::Unix),
        ("sh".to_string(), vec!["-c".to_string(), "ls -l".to_string()])
    );
    assert_eq!(
        shell_invocation("dir", Platform::Windows),
        ("cmd".to_string(), vec!["/C".to_string(), "dir".to_string()])
    );
}

#[test]
fn standard_output_comes_before_standard_error() {
    let outcome = BashOutcome::Finished {
        stdout: b"out\n".to_vec(),
        stderr: b"err\n".to_vec(),
        exit_code: Some(3),
    };
    match bash_reply(outcome, 100) {
        BashReply::Finished { shown, exit_code } => {
            assert_eq!(shown.output, "out\nerr\n");
            assert!(!shown.truncated);
            assert_eq!(exit_code, Some(3));
        }
        other => panic!("{:?}", other),
    }
}

#[test]
fn bytes_that_are_no_text_are_replaced() {
    let outcome = BashOutcome::Finished {
        stdout: vec![b'a', 0xff, b'b'],
        stderr: vec![0xe2, 0x9c, 0x85],
        exit_code: None,
    };
    match bash_reply(outcome, 100) {
        BashReply::Finished { shown, exit_code } => {
            assert_eq!(shown.output, "a\u{fffd}b✅");
            assert_eq!(exit_code, None);
        }
        other => panic!("{:?}", other),
    }
}

#[test]
fn failures_of_commands_are_told() {
    match bash_reply(BashOutcome::SpawnFailed("no such file".to_string()), 100) {
        BashReply::SpawnFailed { error } => assert_eq!(error, "spawn failed: no such file"),
        other => panic!("{:?}", other),
    }
    match bash_reply(BashOutcome::TimedOut, 10_000) {
        BashReply::TimedOut { error } => assert_eq!(error, "timed out after 10000ms"),
        other => panic!("{:?}", other),
    }
}
