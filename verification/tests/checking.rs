use autocheck::batch::{
    answer_reads, read_request, write_request, Batch, ReadAnswer, ReadItem, WriteItem,
};
use autocheck::diagnostics::{
    confirm_findings, parse_generic_diagnostics, parse_rust_diagnostics, Level, SourceFile,
};
use autocheck::languages::{
    check_target, conclude, detect_language, get_support, is_rust_output, CheckAction, CheckEvent,
    CheckReport, Invocation, Language, LanguageSupport, Tool,
};
use autocheck::paths::Platform;
use autocheck::read::{ReadReply, ReadRequest};

#[test]
fn files_are_detected_by_extension_or_name() {
    let cases = [
        ("/p/src/lib.rs", Some(Language::Rust)),
        ("/p/Cargo.toml", Some(Language::Rust)),
        ("/p/main.go", Some(Language::Go)),
        ("/p/go.mod", Some(Language::Go)),
        ("/p/x.py", Some(Language::Python)),
        ("/p/x.js", Some(Language::JavaScript)),
        ("/p/x.ts", Some(Language::JavaScript)),
        ("/p/x.jsx", Some(Language::JavaScript)),
        ("/p/x.tsx", Some(Language::JavaScript)),
        ("/p/package.json", Some(Language::JavaScript)),
        ("/p/tsconfig.json", None),
        ("/p/other.toml", None),
        ("/p/go.sum", None),
        ("/p/README.md", None),
        ("/p/Makefile", None),
        ("/p/.rs", None),
        ("/p/x.RS", None),
        ("/p/src.rs/", Some(Language::Rust)),
        ("lib.test.ts", Some(Language::JavaScript)),
        ("/", None),
        ("", None),
        ("..", None),
    ];
    for (path, lang) in cases {
        assert_eq!(detect_language(path, Platform::Unix), lang, "{}", path);
    }
}

#[test]
fn supports_name_their_markers_and_extensions() {
    let support = get_support(Language::Rust);
    assert_eq!(support.root_markers(), &["Cargo.toml"]);
    assert_eq!(support.extensions(), &["rs"]);
    let support = get_support(Language::Go);
    assert_eq!(support.root_markers(), &["go.mod"]);
    assert_eq!(support.extensions(), &["go"]);
    let support = get_support(Language::Python);
    assert_eq!(support.root_markers(), &["pyproject.toml", "requirements.txt", "setup.py", ".git"]);
    assert_eq!(support.extensions(), &["py"]);
    let support = get_support(Language::JavaScript);
    assert_eq!(support.root_markers(), &["package.json", "tsconfig.json", ".git"]);
    assert_eq!(support.extensions(), &["js", "ts", "jsx", "tsx"]);
}

#[test]
fn extensions_lead_to_their_language() {
    for lang in [Language::Rust, Language::Go, Language::Python, Language::JavaScript] {
        for ext in get_support(lang).extensions() {
            assert_eq!(detect_language(&format!("/a/b.{}", ext), Platform::Unix), Some(lang));
        }
    }
}

#[test]
fn the_project_of_a_written_file_is_found() {
    let present = |p: &str| p == "/w/Cargo.toml" || p == "/w/.git";
    assert_eq!(
        check_target("/w/src/lib.rs", true, Platform::Unix, present),
        Some(("/w".to_string(), Language::Rust))
    );
    assert_eq!(
        check_target("/w/tools/x.py", true, Platform::Unix, present),
        Some(("/w".to_string(), Language::Python))
    );
    assert_eq!(check_target("/w/main.go", true, Platform::Unix, present), None);
    assert_eq!(check_target("/w/README.md", true, Platform::Unix, present), None);
    assert_eq!(check_target("/elsewhere/lib.rs", true, Platform::Unix, present), None);
}

fn exited(success: bool, stdout: &str, stderr: &str) -> CheckEvent {
    CheckEvent::Exited { success, stdout: stdout.into(), stderr: stderr.into() }
}

fn not_started() -> CheckEvent {
    CheckEvent::SpawnFailed("not found".to_string())
}

fn run(action: CheckAction) -> Invocation {
    match action {
        CheckAction::Run(inv) => inv,
        other => panic!("{:?}", other),
    }
}

fn report(action: CheckAction) -> CheckReport {
    match action {
        CheckAction::Report(report) => report,
        other => panic!("{:?}", other),
    }
}

fn command(inv: &Invocation) -> String {
    format!("{} {}", inv.program, inv.args.join(" "))
}

fn assert_in_root(inv: &Invocation, expected: &str, capture: bool) {
    assert_eq!(command(inv), expected);
    assert!(inv.in_root);
    assert!(!inv.cargo_path);
    assert_eq!(inv.capture, capture);
}

fn assert_report(r: &CheckReport, tool: Tool, success: bool, fix_ok: bool, output: &str) {
    assert_eq!(r.tool, tool);
    assert_eq!(r.success, success);
    assert_eq!(r.fix_ok, fix_ok);
    assert_eq!(r.output, output);
}

#[test]
fn rust_is_checked_with_clippy() {
    let support = get_support(Language::Rust);
    let inv = run(support.run_check(Some("/w/src/lib.rs"), &[]));
    assert_eq!(command(&inv), "cargo clippy --fix --allow-dirty");
    assert!(inv.in_root && inv.cargo_path);
    let inv = run(support.run_check(None, &[not_started()]));
    assert_eq!(command(&inv), "cargo clippy --message-format=human");
    assert!(inv.in_root && inv.cargo_path && inv.capture);
    let r = report(support.run_check(None, &[exited(true, "", ""), exited(false, "out", "err")]));
    assert_report(&r, Tool::Clippy, false, true, "err");
    let r = report(support.run_check(None, &[exited(false, "", ""), not_started()]));
    assert_report(&r, Tool::Clippy, false, false, "spawn failed: not found");
}

#[test]
fn go_is_formatted_and_vetted() {
    let support = get_support(Language::Go);
    assert_in_root(&run(support.run_check(Some("/w/m.go"), &[])), "go fmt /w/m.go", false);
    assert_in_root(&run(support.run_check(None, &[])), "go fmt ./...", false);
    assert_in_root(&run(support.run_check(None, &[not_started()])), "go vet ./...", true);
    let r = report(support.run_check(None, &[exited(true, "", ""), exited(true, "o", "e")]));
    assert_report(&r, Tool::GoVet, true, true, "e");
}

#[test]
fn python_is_checked_with_ruff_where_there_is_one() {
    let support = get_support(Language::Python);
    let inv = run(support.run_check(Some("/w/a.py"), &[]));
    assert_eq!(command(&inv), "ruff --version");
    assert!(!inv.in_root && !inv.capture);
    let found = || exited(true, "", "");
    assert_in_root(
        &run(support.run_check(None, &[found()])),
        "ruff check --fix .",
        false,
    );
    assert_in_root(
        &run(support.run_check(None, &[found(), exited(false, "", "")])),
        "ruff check .",
        true,
    );
    let r = report(support.run_check(None, &[found(), exited(false, "", ""), exited(false, "o", "e")]));
    assert_report(&r, Tool::Ruff, false, false, "oe");
    let r = report(support.run_check(None, &[found(), exited(true, "", ""), not_started()]));
    assert_report(&r, Tool::Ruff, false, true, "spawn failed: not found");
}

#[test]
fn python_is_checked_with_pyflakes_where_there_is_no_ruff() {
    let support = get_support(Language::Python);
    assert_in_root(
        &run(support.run_check(Some("/w/a.py"), &[not_started()])),
        "pyflakes /w/a.py",
        true,
    );
    let no_ruff = || exited(false, "", "");
    let r = report(support.run_check(Some("/w/a.py"), &[no_ruff(), exited(false, "o", "e")]));
    assert_report(&r, Tool::Pyflakes, false, false, "oe");
    let r = report(support.run_check(Some("/w/a.py"), &[no_ruff(), exited(true, "", "")]));
    assert_report(&r, Tool::Pyflakes, true, false, "");
    let r = report(support.run_check(Some("/w/a.py"), &[no_ruff(), not_started()]));
    assert_report(&r, Tool::Pyflakes, false, false, "spawn failed: not found");
    let r = report(support.run_check(None, &[not_started()]));
    assert_report(&r, Tool::NoPython, true, false, "");
}

fn probe(action: CheckAction) -> String {
    match action {
        CheckAction::Probe(name) => name,
        other => panic!("{:?}", other),
    }
}

#[test]
fn javascript_is_checked_with_tsc_and_eslint() {
    let support = get_support(Language::JavaScript);
    let ok = || exited(true, "", "");
    let yes = || CheckEvent::Exists(true);
    let tsc = || exited(false, "tsc out,", "tsc err,");
    assert_eq!(probe(support.run_check(None, &[])), "tsconfig.json");
    assert_in_root(&run(support.run_check(None, &[yes()])), "npx tsc --noEmit", true);
    assert_in_root(&run(support.run_check(None, &[yes(), tsc()])), "npx eslint --version", false);
    assert_in_root(
        &run(support.run_check(None, &[yes(), tsc(), ok()])),
        "npx eslint --fix .",
        false,
    );
    assert_in_root(
        &run(support.run_check(None, &[yes(), tsc(), ok(), ok()])),
        "npx eslint .",
        true,
    );
    let lint = || exited(true, "lint out,", "lint err");
    let r = report(support.run_check(None, &[yes(), tsc(), ok(), ok(), lint()]));
    assert_report(&r, Tool::JsTs, false, true, "tsc out,lint out,tsc err,lint err");
    // A compiler or a linter that was not started does not count as a failure.
    let r = report(support.run_check(None, &[yes(), not_started(), ok(), ok(), not_started()]));
    assert_report(&r, Tool::JsTs, true, true, "");
}

#[test]
fn javascript_without_types_is_only_linted() {
    let support = get_support(Language::JavaScript);
    let ok = || exited(true, "", "");
    let no = || CheckEvent::Exists(false);
    assert_in_root(&run(support.run_check(None, &[no()])), "npx eslint --version", false);
    assert_in_root(&run(support.run_check(None, &[no(), ok()])), "npx eslint --fix .", false);
    assert_in_root(&run(support.run_check(None, &[no(), ok(), ok()])), "npx eslint .", true);
    let bad = exited(false, "o", "e");
    let r = report(support.run_check(None, &[no(), ok(), exited(false, "", ""), bad]));
    assert_report(&r, Tool::JsTs, false, false, "oe");
}

#[test]
fn javascript_without_eslint_is_checked_with_biome() {
    let support = get_support(Language::JavaScript);
    let ok = || exited(true, "", "");
    let yes = || CheckEvent::Exists(true);
    assert_in_root(
        &run(support.run_check(None, &[yes(), ok(), not_started()])),
        "npx biome --version",
        false,
    );
    assert_in_root(
        &run(support.run_check(None, &[yes(), ok(), not_started(), ok()])),
        "npx biome check .",
        true,
    );
    let bad = exited(false, "o", "e");
    let r = report(support.run_check(None, &[yes(), ok(), not_started(), ok(), bad]));
    assert_report(&r, Tool::JsTs, false, false, "oe");
}

#[test]
fn javascript_without_tools_passes() {
    let support = get_support(Language::JavaScript);
    let seen = [CheckEvent::Exists(false), exited(false, "", ""), not_started()];
    let r = report(support.run_check(None, &seen));
    assert_report(&r, Tool::JsTs, true, false, "");
    let result = conclude(&r, Vec::new());
    assert_eq!(result.summary, "✓ JS/TS check passed: 0 error(s), 0 warning(s)");
}

#[test]
fn checks_end_after_five_actions() {
    for lang in [Language::Rust, Language::Go, Language::Python, Language::JavaScript] {
        for success in [true, false] {
            for there in [true, false] {
                let support = get_support(lang);
                let mut seen: Vec<CheckEvent> = Vec::new();
                let mut ended = false;
                for _ in 0..6 {
                    match support.run_check(Some("f"), &seen) {
                        CheckAction::Run(_) => seen.push(exited(success, "", "")),
                        CheckAction::Probe(_) => seen.push(CheckEvent::Exists(there)),
                        CheckAction::Report(_) => {
                            ended = true;
                            break;
                        }
                    }
                }
                assert!(ended && seen.len() <= 5);
            }
        }
    }
}

fn ended(tool: Tool, success: bool) -> CheckReport {
    CheckReport { tool, success, fix_ok: true, output: String::new() }
}

const TWO: &str = "error: one\nwarning: two\nwarning: three\n";

#[test]
fn diagnostics_are_parted_by_level() {
    let r = conclude(&ended(Tool::Clippy, false), parse_rust_diagnostics(TWO));
    assert!(!r.success);
    assert!(r.fix_ok);
    let errors: Vec<&str> = r.errors.iter().map(|d| d.message.as_str()).collect();
    let warnings: Vec<&str> = r.warnings.iter().map(|d| d.message.as_str()).collect();
    assert_eq!(errors, vec!["one"]);
    assert_eq!(warnings, vec!["two", "three"]);
    assert!(r.errors.iter().all(|d| d.level == Level::Error));
    assert!(r.warnings.iter().all(|d| d.level == Level::Warning));
}

#[test]
fn summaries_tell_what_came_out() {
    let summary = |tool: Tool, success: bool| {
        conclude(&ended(tool, success), parse_rust_diagnostics(TWO)).summary
    };
    assert_eq!(
        summary(Tool::Clippy, true),
        "✅ cargo clippy (include check) passed (2 warning(s))"
    );
    assert_eq!(
        summary(Tool::Clippy, false),
        "❌ cargo clippy (include check) failed: 1 error(s), 2 warning(s)"
    );
    assert_eq!(summary(Tool::GoVet, true), "✅ go vet passed (2 warning(s))");
    assert_eq!(summary(Tool::GoVet, false), "❌ go vet failed: 1 error(s), 2 warning(s)");
    assert_eq!(summary(Tool::Ruff, true), "✅ ruff check passed (2 warning(s))");
    assert_eq!(summary(Tool::Ruff, false), "❌ ruff check failed: 1 error(s), 2 warning(s)");
    assert_eq!(
        summary(Tool::JsTs, true),
        "✓ JS/TS check passed: 1 error(s), 2 warning(s)"
    );
    assert_eq!(summary(Tool::JsTs, false), "❌ JS/TS check failed: 1 error(s), 2 warning(s)");
    assert_eq!(summary(Tool::Pyflakes, true), "✅ pyflakes passed (2 warning(s))");
    assert_eq!(summary(Tool::Pyflakes, false), "❌ pyflakes failed: 1 error(s), 2 warning(s)");
    let none = conclude(&ended(Tool::NoPython, true), Vec::new());
    assert_eq!(none.summary, "✅ skipped python check (no file provided and ruff not found)");
    assert!(none.errors.is_empty() && none.warnings.is_empty());
}

#[test]
fn only_clippy_writes_as_rustc_does() {
    assert!(is_rust_output(Tool::Clippy));
    for tool in [Tool::GoVet, Tool::Ruff, Tool::Pyflakes, Tool::NoPython, Tool::JsTs] {
        assert!(!is_rust_output(tool));
    }
}

#[test]
fn a_vet_run_comes_to_its_result() {
    let support = get_support(Language::Go);
    let seen = [exited(true, "", ""), exited(false, "", "main.go:2:1: vet error\n")];
    let r = report(support.run_check(None, &seen));
    let findings = parse_generic_diagnostics(&r.output, "/w", Platform::Unix);
    let sources = vec![SourceFile::Text("package main\nbad\n".to_string())];
    let result = conclude(&r, confirm_findings(&findings, &sources));
    assert_eq!(result.summary, "❌ go vet failed: 1 error(s), 0 warning(s)");
    assert_eq!(
        result.errors[0].source_context.as_ref().unwrap().snippet,
        "       1 | package main\n>>>    2 | bad"
    );
}

#[test]
fn projects_of_a_batch_are_listed_once() {
    let mut b = Batch::new();
    b.note_written(Some(("/w".to_string(), Language::Rust)));
    b.note_written(None);
    b.note_failure("/w/locked.rs");
    b.note_written(Some(("/w".to_string(), Language::Python)));
    b.note_written(Some(("/w".to_string(), Language::Rust)));
    b.note_refused(None);
    b.note_refused(Some("/w/empty.rs"));
    b.note_written(Some(("/v".to_string(), Language::Rust)));
    assert_eq!(
        b.affected,
        vec![
            ("/w".to_string(), Language::Rust),
            ("/w".to_string(), Language::Python),
            ("/v".to_string(), Language::Rust),
        ]
    );
    assert_eq!(b.failed_paths, vec!["/w/locked.rs", "<unknown>", "/w/empty.rs"]);
}

fn some(t: &str) -> Option<String> {
    Some(t.to_string())
}

fn read_item(path: Option<&str>) -> ReadItem {
    ReadItem {
        path: path.map(str::to_string),
        start_line: None,
        end_line: None,
        search_regex: None,
        context_lines: None,
        outline_only: None,
        extract_symbol: None,
        max_depth: None,
    }
}

fn write_item(path: Option<&str>, new: Option<&str>) -> WriteItem {
    WriteItem {
        path: path.map(str::to_string),
        new_string: new.map(str::to_string),
        old_string: None,
        count: None,
        append: None,
        shebang: None,
    }
}

#[test]
fn items_need_a_path() {
    assert_eq!(write_request(write_item(None, Some("x"))).unwrap_err(), "missing path");
    assert_eq!(write_request(write_item(None, None)).unwrap_err(), "missing path");
    assert_eq!(read_request(read_item(None)).unwrap_err(), "missing path");
}

#[test]
fn write_items_need_a_new_text() {
    assert_eq!(write_request(write_item(Some("/f"), None)).unwrap_err(), "missing new_string");
    assert_eq!(write_request(write_item(Some("/f"), Some(""))).unwrap().new_string, "");
}

#[test]
fn items_become_requests() {
    let item = WriteItem {
        old_string: some("old"),
        count: Some(2),
        append: Some(true),
        shebang: some("sh"),
        ..write_item(Some("/f"), Some("new"))
    };
    let req = write_request(item).unwrap();
    assert_eq!(req.path, "/f");
    assert_eq!(req.new_string, "new");
    assert_eq!(req.old_string, some("old"));
    assert_eq!(req.count, Some(2));
    assert_eq!(req.append, Some(true));
    assert_eq!(req.shebang, some("sh"));

    let item = ReadItem {
        path: some("/f"),
        start_line: Some(1),
        end_line: Some(2),
        search_regex: some("re"),
        context_lines: Some(3),
        outline_only: Some(false),
        extract_symbol: some("sym"),
        max_depth: Some(4),
    };
    let req = read_request(item).unwrap();
    assert_eq!(req.path, "/f");
    assert_eq!((req.start_line, req.end_line), (Some(1), Some(2)));
    assert_eq!(req.search_regex, some("re"));
    assert_eq!(req.context_lines, Some(3));
    assert_eq!(req.outline_only, Some(false));
    assert_eq!(req.extract_symbol, some("sym"));
    assert_eq!(req.max_depth, Some(4));
}

#[test]
fn reads_are_answered_one_by_one() {
    let read = |req: &ReadRequest| ReadReply::Error(format!("saw {}", req.path));
    let items = vec![read_item(Some("/a")), read_item(None), read_item(Some("/b"))];
    let answers: Vec<String> = answer_reads(items, read)
        .into_iter()
        .map(|a| match a {
            ReadAnswer::Refused(message) => message,
            ReadAnswer::Answered { request, reply: ReadReply::Error(e) } => {
                format!("{}: {}", request.path, e)
            }
            other => panic!("{:?}", other),
        })
        .collect();
    assert_eq!(answers, vec!["/a: saw /a", "missing path", "/b: saw /b"]);
    assert!(answer_reads(Vec::new(), read).is_empty());
}
