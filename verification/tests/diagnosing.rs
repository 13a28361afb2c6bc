use autocheck::diagnostics::{
    add_rust_context, classify_lowered, collect_findings, confirm_findings, is_row_in_reach,
    parse_generic_diagnostics, parse_rust_diagnostics, source_path, Diagnostic, Finding, Level,
    Location, SourceFile,
};
use autocheck::paths::Platform;

const CLIPPY: &str = "    Checking demo v0.1.0 (/work/demo)
warning: unused variable: `x`
 --> src/main.rs:2:9
  |
2 |     let x = 1;
  |         ^ help: prefix it with an underscore
  |
  = note: `#[warn(unused_variables)]` on by default

error[E0308]: mismatched types
  --> src/lib.rs:10:5
   |
10 |     \"a\"
   |     ^^^ expected `u32`

error: aborting due to 1 previous error; 1 warning emitted
error: could not compile `demo` (lib) due to 1 previous error
";

fn place(d: &Diagnostic) -> Option<(&str, usize, usize)> {
    d.location.as_ref().map(|l| (l.file.as_str(), l.line, l.col))
}

#[test]
fn clippy_output_is_read() {
    let list = parse_rust_diagnostics(CLIPPY);
    assert_eq!(list.len(), 2);

    assert_eq!(list[0].level, Level::Warning);
    assert_eq!(list[0].message, "unused variable: `x`");
    assert_eq!(place(&list[0]), Some(("src/main.rs", 2, 9)));
    let raw = list[0].raw.as_ref().unwrap();
    assert!(raw.starts_with("warning: unused variable: `x`\n --> src/main.rs:2:9\n"));
    assert!(raw.ends_with("on by default\n"));
    assert!(list[0].source_context.is_none());

    assert_eq!(list[1].level, Level::Error);
    assert_eq!(list[1].message, "mismatched types");
    assert_eq!(place(&list[1]), Some(("src/lib.rs", 10, 5)));
    assert_eq!(
        list[1].raw.as_deref(),
        Some("error[E0308]: mismatched types\n  --> src/lib.rs:10:5\n   |\n10 |     \"a\"\n   |     ^^^ expected `u32`\n")
    );
}

#[test]
fn closing_remarks_are_no_diagnostics() {
    assert!(parse_rust_diagnostics("error: could not compile `demo`\n").is_empty());
    assert!(parse_rust_diagnostics("error: aborting due to 2 previous errors\n").is_empty());
    assert!(parse_rust_diagnostics("all is well\n").is_empty());
    assert!(parse_rust_diagnostics("").is_empty());
    // Indented lines begin no diagnostic.
    assert!(parse_rust_diagnostics("  error: inner\n").is_empty());
}

#[test]
fn a_heading_without_a_colon_is_its_own_message() {
    let list = parse_rust_diagnostics("warnings were found  \n");
    assert_eq!(list.len(), 1);
    assert_eq!(list[0].message, "warnings were found");
    assert_eq!(list[0].raw.as_deref(), Some("warnings were found  "));
    assert_eq!(place(&list[0]), None);
}

#[test]
fn places_are_looked_for_in_five_lines() {
    let near = "error: e\n1\n2\n3\n4\n --> a.rs:7:3\n";
    assert_eq!(place(&parse_rust_diagnostics(near)[0]), Some(("a.rs", 7, 3)));
    let far = "error: e\n1\n2\n3\n4\n5\n --> a.rs:7:3\n";
    assert_eq!(place(&parse_rust_diagnostics(far)[0]), None);
}

#[test]
fn the_next_diagnostic_ends_the_search_for_a_place() {
    let list = parse_rust_diagnostics("error: one\nwarning: two\n --> b.rs:4:1\n");
    assert_eq!(list.len(), 2);
    assert_eq!(place(&list[0]), None);
    assert_eq!(list[0].raw.as_deref(), Some("error: one"));
    assert_eq!(place(&list[1]), Some(("b.rs", 4, 1)));
}

#[test]
fn the_first_arrow_decides() {
    // Without a number there is no place, and no later arrow is looked at.
    let list = parse_rust_diagnostics("error: e\n --> nowhere\n --> a.rs:1:1\n");
    assert_eq!(place(&list[0]), None);
    let list = parse_rust_diagnostics("error: e\n --> a.rs:x:1\n");
    assert_eq!(place(&list[0]), None);
    // A missing or odd column counts as one.
    assert_eq!(place(&parse_rust_diagnostics("error: e\n --> a.rs:3\n")[0]), Some(("a.rs", 3, 1)));
    assert_eq!(
        place(&parse_rust_diagnostics("error: e\n --> a.rs:3:4:5\n")[0]),
        Some(("a.rs", 3, 1))
    );
}

#[test]
fn the_place_of_a_source_is_seen_from_the_root() {
    let at = |file: &str| Location { file: file.to_string(), line: 1, col: 1 };
    assert_eq!(source_path("/work", &at("src/lib.rs"), Platform::Unix), "/work/src/lib.rs");
    assert_eq!(source_path("/work", &at("/abs/lib.rs"), Platform::Unix), "/abs/lib.rs");
}

fn rust_error(line: usize) -> Diagnostic {
    parse_rust_diagnostics(&format!("error: e\n --> a.rs:{}:1\n", line)).remove(0)
}

fn numbered_source(n: usize) -> String {
    (1..=n).map(|i| format!("line {}\n", i)).collect()
}

#[test]
fn five_lines_are_shown_on_each_side() {
    let source = numbered_source(20);
    let d = add_rust_context(rust_error(10), Some(&source));
    let context = d.source_context.unwrap();
    assert_eq!(context.file, "a.rs");
    assert_eq!(context.line, 10);
    let rows: Vec<&str> = context.snippet.lines().collect();
    assert_eq!(rows.len(), 11);
    assert_eq!(rows[0], "       5 | line 5");
    assert_eq!(rows[5], ">>>   10 | line 10");
    assert_eq!(rows[10], "      15 | line 15");
}

#[test]
fn the_window_stays_within_the_source() {
    let source = numbered_source(4);
    let shown = |line: usize| {
        add_rust_context(rust_error(line), Some(&source)).source_context.unwrap().snippet
    };
    assert_eq!(
        shown(1),
        ">>>    1 | line 1\n       2 | line 2\n       3 | line 3\n       4 | line 4"
    );
    // There is no line zero, so nothing is marked.
    assert!(!shown(0).contains(">>>"));
    // A line after the end is not shown, but what comes before it is.
    assert_eq!(shown(9), "       4 | line 4");
    assert_eq!(shown(10), "");
}

#[test]
fn rows_far_after_the_end_are_out_of_reach() {
    let source = numbered_source(4);
    assert!(is_row_in_reach(0, &source));
    assert!(is_row_in_reach(10, &source));
    assert!(!is_row_in_reach(11, &source));
    assert!(is_row_in_reach(6, ""));
    assert!(!is_row_in_reach(7, ""));
}

#[test]
fn without_a_source_nothing_is_added() {
    assert!(add_rust_context(rust_error(3), None).source_context.is_none());
    let nowhere = parse_rust_diagnostics("error: e\n").remove(0);
    assert!(add_rust_context(nowhere, Some("text")).source_context.is_none());
}

fn seen(f: &Finding) -> (Level, &str, &str, usize, usize, &str) {
    (
        f.level,
        f.message.as_str(),
        f.location.file.as_str(),
        f.location.line,
        f.location.col,
        f.path.as_str(),
    )
}

#[test]
fn common_formats_are_found() {
    let output = "# demo\n./main.go:7:2: fmt.Printf has Error in it\nvet: main.go:9: unreachable code\nsrc/app.ts:12:5 - message\nall done\n";
    let list = parse_generic_diagnostics(output, "/work", Platform::Unix);
    let list: Vec<_> = list.iter().map(seen).collect();
    assert_eq!(
        list,
        vec![
            (Level::Error, "fmt.Printf has Error in it", "./main.go", 7, 2, "/work/./main.go"),
            (Level::Warning, "unreachable code", "vet: main.go", 9, 1, "/work/vet: main.go"),
            (Level::Warning, "- message", "src/app.ts", 12, 5, "/work/src/app.ts"),
        ]
    );
}

#[test]
fn absolute_files_stand_for_themselves() {
    let list = parse_generic_diagnostics("/abs/x.py:3:1: E999 SyntaxERROR\n", "/work", Platform::Unix);
    assert_eq!(seen(&list[0]), (Level::Error, "E999 SyntaxERROR", "/abs/x.py", 3, 1, "/abs/x.py"));
}

#[test]
fn a_finding_needs_a_message() {
    assert!(parse_generic_diagnostics("main.go:7:2:", "/work", Platform::Unix).is_empty());
    assert!(parse_generic_diagnostics("", "/work", Platform::Unix).is_empty());
    assert!(parse_generic_diagnostics("no place here\n", "/work", Platform::Unix).is_empty());
}

fn groups(list: &[Option<&str>]) -> Vec<Option<String>> {
    list.iter().map(|g| g.map(str::to_string)).collect()
}

#[test]
fn groups_become_findings() {
    let captures = vec![
        groups(&[Some("all"), Some("a.c"), Some("5"), Some("6"), Some("an error")]),
        groups(&[Some("all"), Some("a.c"), Some("5"), None, Some("fine")]),
        groups(&[Some("all"), None, Some("5"), None, Some("no file")]),
        groups(&[Some("all"), Some("a.c"), Some("5"), None, Some("")]),
        groups(&[Some("all"), Some("a.c"), Some("99999999999999999999999"), None, Some("far")]),
        groups(&[]),
    ];
    let list = collect_findings(&captures, "r", Platform::Unix);
    let list: Vec<_> = list.iter().map(seen).collect();
    assert_eq!(
        list,
        vec![
            (Level::Error, "an error", "a.c", 5, 6, "r/a.c"),
            (Level::Warning, "fine", "a.c", 5, 1, "r/a.c"),
            (Level::Warning, "far", "a.c", 1, 1, "r/a.c"),
        ]
    );
}

#[test]
fn levels_go_by_the_lower_case() {
    assert_eq!(classify_lowered("a syntaxerror here"), Level::Error);
    assert_eq!(classify_lowered("a SyntaxError here"), Level::Warning);
    assert_eq!(classify_lowered(""), Level::Warning);
}

#[test]
fn findings_are_confirmed_by_their_files() {
    let findings = parse_generic_diagnostics(
        "a:2:1: one\nb:1:1: two\nc:1:1: three\na:9:1: four\na:0:1: five\n",
        "/r",
        Platform::Unix,
    );
    assert_eq!(findings.len(), 5);
    let text = || SourceFile::Text("l1\nl2\nl3\nl4\nl5\n".to_string());
    let sources = vec![text(), SourceFile::Missing, SourceFile::Unreadable, text(), text()];
    let list = confirm_findings(&findings, &sources);
    let messages: Vec<&str> = list.iter().map(|d| d.message.as_str()).collect();
    assert_eq!(messages, vec!["one", "three", "four", "five"]);

    let context = list[0].source_context.as_ref().unwrap();
    assert_eq!(context.file, "a");
    assert_eq!(context.line, 2);
    assert_eq!(
        context.snippet,
        "       1 | l1\n>>>    2 | l2\n       3 | l3\n       4 | l4"
    );
    assert_eq!(list[0].raw, None);
    assert_eq!(place(&list[0]), Some(("a", 2, 1)));

    assert!(list[1].source_context.is_none());
    assert!(list[2].source_context.is_none());
    assert_eq!(
        list[3].source_context.as_ref().unwrap().snippet,
        "       1 | l1\n       2 | l2\n       3 | l3"
    );
}

#[test]
fn diagnostics_of_two_outputs_come_one_after_the_other() {
    let second = "warning: last\n --> z.rs:1:2\n";
    let both = parse_rust_diagnostics(&format!("{}{}", CLIPPY, second));
    let first = parse_rust_diagnostics(CLIPPY);
    assert_eq!(both.len(), 3);
    for (d, e) in both.iter().zip(first.iter()) {
        assert_eq!((d.level, &d.message, &d.raw), (e.level, &e.message, &e.raw));
        assert_eq!(place(d), place(e));
    }
    assert_eq!(place(&both[2]), Some(("z.rs", 1, 2)));
}
