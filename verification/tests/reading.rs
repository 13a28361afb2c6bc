use autocheck::ctags::{
    ctags_args, ctags_output, extract_outline_ctags, extract_symbol_ctags, listed_line,
    parse_ctags_output,
};
use autocheck::read::{
    continue_read, continue_with_tags, finish_directory, finish_symbol, read_range, start_read, FileSlice, PathKind, ReadNext, ReadReply, ReadRequest, ReadStart,
    ReadWithTags, MAX_LINES,
};
use autocheck::search::{search_lines, show_hits};
use autocheck::tree::{
    build_tree, clamp_depth, list_directory, opens, sort_entries, Entry, Found, Listing,
};

fn request(path: &str) -> ReadRequest {
    ReadRequest {
        path: path.to_string(),
        start_line: None,
        end_line: None,
        search_regex: None,
        context_lines: None,
        outline_only: None,
        extract_symbol: None,
        max_depth: None,
    }
}

fn slice(reply: ReadReply) -> FileSlice {
    match reply {
        ReadReply::File(slice) => slice,
        other => panic!("{:?}", other),
    }
}

fn error(reply: ReadReply) -> String {
    match reply {
        ReadReply::Error(message) => message,
        other => panic!("{:?}", other),
    }
}

fn replied(next: ReadNext) -> ReadReply {
    match next {
        ReadNext::Reply(reply) => reply,
        other => panic!("{:?}", other),
    }
}

// ── ranges ──────────────────────────────────────────────────────────────────

#[test]
fn a_whole_file_is_read_with_line_numbers() {
    let s = slice(read_range("one\ntwo\r\nthree\n", None, None));
    assert_eq!(s.content, "   1 | one\n   2 | two\n   3 | three");
    assert_eq!((s.start_line, s.end_line, s.total_lines), (1, 3, 3));
    assert!(!s.truncated);
}

#[test]
fn a_range_is_read_with_the_numbers_of_the_file() {
    let text = "a\nb\nc\nd\n";
    let s = slice(read_range(text, Some(2), Some(3)));
    assert_eq!(s.content, "   2 | b\n   3 | c");
    assert_eq!((s.start_line, s.end_line, s.total_lines), (2, 3, 4));
    let s = slice(read_range(text, Some(3), Some(99)));
    assert_eq!(s.content, "   3 | c\n   4 | d");
    let s = slice(read_range(text, Some(0), Some(1)));
    assert_eq!(s.content, "   1 | a");
    let s = slice(read_range(text, Some(2), Some(1)));
    assert_eq!(s.content, "");
    assert_eq!((s.start_line, s.end_line), (2, 1));
}

#[test]
fn blank_lines_are_shown_wherever_they_stand() {
    let s = slice(read_range("a\n\nb\n", Some(1), Some(2)));
    assert_eq!(s.content, "   1 | a\n   2 | ");
    assert_eq!((s.start_line, s.end_line), (1, 2));
    let s = slice(read_range("a\n\n", None, None));
    assert_eq!(s.content, "   1 | a\n   2 | ");
    assert_eq!((s.start_line, s.end_line, s.total_lines), (1, 2, 2));
    let s = slice(read_range("a\r\r\nb\r\n", None, None));
    assert_eq!(s.content, "   1 | a\r\n   2 | b");
}

#[test]
fn an_empty_file_is_shown_as_such() {
    for end in [None, Some(5)] {
        let s = slice(read_range("", None, end));
        assert_eq!(s.content, "");
        assert_eq!((s.start_line, s.end_line, s.total_lines), (1, 0, 0));
        assert!(!s.truncated);
    }
}

#[test]
fn long_files_are_cut_and_go_on_at_the_next_line() {
    let text: String = (1..=2500).map(|i| format!("l{}\n", i)).collect();
    let first = slice(read_range(&text, None, None));
    assert!(first.truncated);
    assert_eq!((first.start_line, first.end_line, first.total_lines), (1, MAX_LINES, 2500));
    assert_eq!(first.content.lines().count(), 1000);
    assert!(first.content.ends_with("1000 | l1000"));

    let second = slice(read_range(&text, Some(first.end_line + 1), None));
    assert!(second.truncated);
    assert!(second.content.starts_with("1001 | l1001\n"));

    let third = slice(read_range(&text, Some(second.end_line + 1), None));
    assert!(!third.truncated);
    assert_eq!((third.start_line, third.end_line), (2001, 2500));

    let exact = slice(read_range(&text, Some(1), Some(1000)));
    assert!(!exact.truncated);
}

#[test]
fn a_start_after_the_end_is_an_error() {
    assert_eq!(
        error(read_range("a\nb\n", Some(4), None)),
        "start_line 4 exceeds file length (2)"
    );
    assert_eq!(error(read_range("", Some(1), None)), "start_line 1 exceeds file length (0)");
}

#[test]
fn an_end_before_the_start_does_not_count() {
    let s = slice(read_range("a\nb\nc\n", Some(3), Some(1)));
    assert_eq!(s.content, "   3 | c");
    assert_eq!((s.start_line, s.end_line, s.total_lines), (3, 3, 3));
    assert!(!s.truncated);
    assert!(matches!(read_range("a\n", Some(9), Some(1)), ReadReply::Error(_)));
}

// ── the course of a request ─────────────────────────────────────────────────

#[test]
fn what_is_done_first_depends_on_what_is_there() {
    let req = request("/x");
    assert!(matches!(start_read(&req, PathKind::File), ReadStart::Load));
    assert!(matches!(start_read(&req, PathKind::Directory), ReadStart::List));
    match start_read(&req, PathKind::Missing) {
        ReadStart::Reply(reply) => assert_eq!(error(reply), "file not found: /x"),
        other => panic!("{:?}", other),
    }
}

#[test]
fn a_file_that_cannot_be_loaded_is_an_error() {
    let reply = replied(continue_read(&request("/x"), Err("permission denied")));
    assert_eq!(error(reply), "read failed: permission denied");
}

#[test]
fn the_mode_is_chosen_by_what_is_set() {
    let content = "alpha\nbeta\n";
    let mut req = request("/x");
    assert_eq!(slice(replied(continue_read(&req, Ok(content)))).total_lines, 2);

    req.search_regex = Some("bet".to_string());
    match replied(continue_read(&req, Ok(content))) {
        ReadReply::Search(hits) => assert_eq!(hits.total_matches, 1),
        other => panic!("{:?}", other),
    }

    req.extract_symbol = Some("beta".to_string());
    assert!(matches!(continue_read(&req, Ok(content)), ReadNext::ListSymbols));

    req.extract_symbol = None;
    req.outline_only = Some(true);
    assert!(matches!(continue_read(&req, Ok(content)), ReadNext::ListSymbols));
    req.outline_only = Some(false);
    assert!(matches!(continue_read(&req, Ok(content)), ReadNext::Reply(_)));
}

#[test]
fn a_search_uses_two_lines_of_context() {
    let content: String = (1..=9).map(|i| format!("l{}\n", i)).collect();
    let mut req = request("/x");
    req.search_regex = Some("l5".to_string());
    match replied(continue_read(&req, Ok(&content))) {
        ReadReply::Search(hits) => assert_eq!(
            hits.matches,
            "   3 |     l3\n   4 |     l4\n   5 | >>> l5\n   6 |     l6\n   7 |     l7"
        ),
        other => panic!("{:?}", other),
    }
    req.context_lines = Some(0);
    match replied(continue_read(&req, Ok(&content))) {
        ReadReply::Search(hits) => assert_eq!(hits.matches, "   5 | >>> l5"),
        other => panic!("{:?}", other),
    }
}

#[test]
fn a_search_may_find_nothing_or_be_refused() {
    let mut req = request("/x");
    req.search_regex = Some("zzz".to_string());
    assert!(matches!(replied(continue_read(&req, Ok("a\nb\n"))), ReadReply::NoMatches));
    assert!(matches!(replied(continue_read(&req, Ok(""))), ReadReply::NoMatches));
    req.search_regex = Some("(".to_string());
    let message = error(replied(continue_read(&req, Ok("a\n"))));
    let reason = regex::Regex::new("(").unwrap_err().to_string();
    assert_eq!(message, format!("invalid regex: {}", reason));
}

// ── search ──────────────────────────────────────────────────────────────────

#[test]
fn patterns_are_regular_expressions() {
    let hits = search_lines("foo1\nbar\nfoo\n", r"^fo+\d$", 0).unwrap();
    assert_eq!(hits.matches, "   1 | >>> foo1");
    assert_eq!(hits.total_matches, 1);
    assert!(search_lines("a", "[", 0).is_err());
}

#[test]
fn lines_between_matches_are_shown_once() {
    let ls: Vec<String> = ["a", "b", "c", "d", "e", "f"].iter().map(|s| s.to_string()).collect();
    let hits = show_hits(&ls, &vec![false, true, false, true, false, false], 1);
    assert_eq!(
        hits.matches,
        "   1 |     a\n   2 | >>> b\n   3 |     c\n   4 | >>> d\n   5 |     e"
    );
    assert_eq!(hits.total_matches, 2);
}

#[test]
fn a_match_near_an_earlier_one_is_counted_but_not_marked() {
    let ls: Vec<String> = ["a", "b", "c"].iter().map(|s| s.to_string()).collect();
    let hits = show_hits(&ls, &vec![true, true, false], 1);
    assert_eq!(hits.matches, "   1 | >>> a\n   2 |     b\n   3 |     c");
    assert_eq!(hits.total_matches, 2);
    let hits = show_hits(&ls, &vec![true, true, false], 0);
    assert_eq!(hits.matches, "   1 | >>> a\n   2 | >>> b");
    let hits = show_hits(&ls, &vec![false, false, true], usize::MAX);
    assert_eq!(hits.matches, "   1 |     a\n   2 |     b\n   3 | >>> c");
}

// ── symbols ─────────────────────────────────────────────────────────────────

const TAGS: &str = "!_TAG_FILE_FORMAT\t2\nalpha\tx.rs\t/^fn alpha() {$/;\"\tf\tline:2\nbeta\tx.rs\t/^fn beta() {$/;\"\tkind:function\tline:5\n";

const SOURCE: &str = "// top\nfn alpha() {\n}\n\nfn beta() {\n    1\n}\n";

#[test]
fn symbols_are_read_from_the_list() {
    assert_eq!(
        parse_ctags_output(TAGS),
        vec![
            ("alpha".to_string(), "?".to_string(), 2),
            ("beta".to_string(), "function".to_string(), 5),
        ]
    );
    assert_eq!(
        parse_ctags_output("a\tb\tline:7\nx\ty\tline:z\np\tq\tr\nshort\tline\n"),
        vec![
            ("a".to_string(), "?".to_string(), 7),
            ("x".to_string(), "?".to_string(), 0),
            ("p".to_string(), "?".to_string(), 0),
        ]
    );
    assert!(parse_ctags_output("").is_empty());
}

#[test]
fn ctags_is_asked_for_line_numbers() {
    assert_eq!(ctags_args("/x.rs"), vec!["-f", "-", "--fields=n", "--sort=no", "/x.rs"]);
}

#[test]
fn the_list_has_to_be_text_of_a_good_run() {
    assert_eq!(ctags_output(true, "tägs".as_bytes().to_vec()), Some("tägs".to_string()));
    assert_eq!(ctags_output(true, vec![0xff]), None);
    assert_eq!(ctags_output(false, b"tags".to_vec()), None);
}

#[test]
fn outlines_list_the_symbols() {
    assert_eq!(extract_outline_ctags(TAGS), "   2 | [?] alpha\n   5 | [function] beta");
    assert_eq!(extract_outline_ctags(""), "");
}

#[test]
fn a_symbol_goes_to_the_next_one_or_the_end() {
    assert_eq!(listed_line(TAGS, "beta"), Some(5));
    assert_eq!(listed_line(TAGS, "gamma"), None);
    assert_eq!(
        extract_symbol_ctags(TAGS, SOURCE, "alpha"),
        Some("fn alpha() {\n}\n".to_string())
    );
    assert_eq!(
        extract_symbol_ctags(TAGS, SOURCE, "beta"),
        Some("fn beta() {\n    1\n}".to_string())
    );
    assert_eq!(extract_symbol_ctags(TAGS, SOURCE, "gamma"), None);
    assert_eq!(extract_symbol_ctags("a\tf\tline:1\n", "", "a"), Some(String::new()));
    // A line that is not known is no line.
    assert_eq!(extract_symbol_ctags("a\tf\tx\n", "text\n", "a"), None);
    // The list says more than the file has.
    assert_eq!(extract_symbol_ctags(TAGS, "one\n", "beta"), None);
    assert_eq!(extract_symbol_ctags(TAGS, "one\n", "alpha"), None);
}

fn with_tags(reply: ReadWithTags) -> ReadReply {
    match reply {
        ReadWithTags::Reply(reply) => reply,
        other => panic!("{:?}", other),
    }
}

#[test]
fn outlines_come_before_symbols() {
    let mut req = request("/x.rs");
    req.outline_only = Some(true);
    req.extract_symbol = Some("alpha".to_string());
    match with_tags(continue_with_tags(&req, Some(TAGS))) {
        ReadReply::Outline { outline } => {
            assert_eq!(outline, "   2 | [?] alpha\n   5 | [function] beta")
        }
        other => panic!("{:?}", other),
    }
    match with_tags(continue_with_tags(&req, None)) {
        ReadReply::Outline { outline } => {
            assert_eq!(outline, "(ctags not available or no symbols found)")
        }
        other => panic!("{:?}", other),
    }
}

#[test]
fn symbols_are_extracted_with_line_numbers() {
    let mut req = request("/x.rs");
    req.extract_symbol = Some("beta".to_string());
    assert!(matches!(continue_with_tags(&req, Some(TAGS)), ReadWithTags::Reload));
    match finish_symbol("beta", TAGS, Some(SOURCE)) {
        ReadReply::Symbol { content, line_count } => {
            assert_eq!(content, "   1 | fn beta() {\n   2 |     1\n   3 | }");
            assert_eq!(line_count, 3);
        }
        other => panic!("{:?}", other),
    }
}

#[test]
fn missing_symbols_are_errors() {
    let mut req = request("/x.rs");
    req.extract_symbol = Some("gamma".to_string());
    let expected = "symbol 'gamma' not found";
    assert_eq!(error(with_tags(continue_with_tags(&req, Some(TAGS)))), expected);
    assert_eq!(error(with_tags(continue_with_tags(&req, None))), expected);
    assert_eq!(error(finish_symbol("gamma", TAGS, Some(SOURCE))), expected);
    assert_eq!(error(finish_symbol("a", "a\tf\tx\n", Some("t"))), "symbol 'a' not found");
    assert_eq!(error(finish_symbol("beta", TAGS, None)), "symbol 'beta' not found");
    assert_eq!(error(finish_symbol("beta", TAGS, Some("x"))), "symbol 'beta' not found");
}

// ── trees ───────────────────────────────────────────────────────────────────

fn file(name: &str) -> Entry {
    Entry { name: name.to_string(), raw: Vec::new(), is_dir: false, id: 0, below: Listing::Denied }
}

fn found(name: &str, is_dir: bool, id: usize) -> Found {
    Found { name: name.to_string(), raw: name.as_bytes().to_vec(), is_dir, id }
}

fn dir(name: &str, below: Listing) -> Entry {
    Entry { name: name.to_string(), raw: Vec::new(), is_dir: true, id: 0, below }
}

#[test]
fn directories_are_drawn_as_trees() {
    let listing = Listing::Entries(vec![
        dir("a", Listing::Entries(vec![file("x"), dir("y", Listing::Denied)])),
        file("b"),
        dir("c", Listing::Entries(vec![file("z")])),
    ]);
    assert_eq!(
        build_tree(&listing, "", 0, 3),
        "├── a/\n│   ├── x\n│   └── y/\n│       └── [access denied]\n├── b\n└── c/\n    └── z\n"
    );
    assert_eq!(
        build_tree(&listing, "", 0, 1),
        "├── a/\n│   ├── x\n│   └── y/\n├── b\n└── c/\n    └── z\n"
    );
    assert_eq!(build_tree(&listing, "", 0, 0), "├── a/\n├── b\n└── c/\n");
    assert_eq!(build_tree(&listing, "> ", 2, 1), "> └── ... (max depth reached)\n");
    assert_eq!(build_tree(&Listing::Denied, "> ", 0, 1), "> └── [access denied]\n");
    assert_eq!(build_tree(&Listing::Entries(vec![]), "", 0, 1), "");
}

#[test]
fn fifty_entries_are_drawn() {
    let entries = |n: usize| Listing::Entries((0..n).map(|i| file(&format!("f{:03}", i))).collect());
    let drawn = build_tree(&entries(50), "", 0, 1);
    assert_eq!(drawn.lines().count(), 50);
    assert!(drawn.ends_with("├── f048\n└── f049\n"));
    let drawn = build_tree(&entries(53), "", 0, 1);
    assert_eq!(drawn.lines().count(), 51);
    assert!(drawn.ends_with("├── f049\n└── ... (3 more items)\n"));
}

#[test]
fn depths_are_bounded() {
    assert_eq!(clamp_depth(None), 3);
    assert_eq!(clamp_depth(Some(0)), 0);
    assert_eq!(clamp_depth(Some(4)), 4);
    assert_eq!(clamp_depth(Some(5)), 5);
    assert_eq!(clamp_depth(Some(6)), 5);
}

#[test]
fn what_is_below_closed_entries_is_not_looked_at() {
    assert!(opens(49, true, 0, 1));
    assert!(!opens(50, true, 0, 1));
    assert!(!opens(0, false, 0, 1));
    assert!(!opens(0, true, 1, 1));
    let open = Listing::Entries(vec![dir("a", Listing::Entries(vec![file("x")]))]);
    let shut = Listing::Entries(vec![dir("a", Listing::Denied)]);
    assert_eq!(build_tree(&open, "", 1, 1), build_tree(&shut, "", 1, 1));
}

#[test]
fn entries_are_put_in_the_order_of_their_names() {
    let names = ["b", "a", "B", "ab", "é", "_", "10", "9"];
    let sorted = sort_entries(names.iter().map(|n| found(n, false, 0)).collect());
    let sorted: Vec<&str> = sorted.iter().map(|e| e.name.as_str()).collect();
    let mut expected = names.to_vec();
    expected.sort();
    assert_eq!(sorted, expected);
    assert!(sort_entries(Vec::new()).is_empty());
}

fn disk(dir: usize) -> Option<Vec<Found>> {
    match dir {
        0 => Some(vec![found("z", false, 9), found("b", true, 2), found("a", true, 1)]),
        1 => Some(vec![found("y", false, 9), found("x", true, 3)]),
        3 => Some(vec![]),
        _ => None,
    }
}

#[test]
fn directories_are_read_in_the_order_of_their_names() {
    let listing = list_directory(&disk, 0, 0, 3);
    assert_eq!(
        build_tree(&listing, "", 0, 3),
        "├── a/\n│   ├── x/\n│   └── y\n├── b/\n│   └── [access denied]\n└── z\n"
    );
    assert!(matches!(list_directory(&disk, 7, 0, 3), Listing::Denied));
}

#[test]
fn the_tree_of_a_request_goes_to_its_depth() {
    let mut req = request("/d");
    match finish_directory(&req, &disk, 1) {
        ReadReply::Directory { tree } => assert_eq!(tree, "├── x/\n└── y\n"),
        other => panic!("{:?}", other),
    }
    req.max_depth = Some(0);
    match finish_directory(&req, &disk, 0) {
        ReadReply::Directory { tree } => assert_eq!(tree, "├── a/\n├── b/\n└── z\n"),
        other => panic!("{:?}", other),
    }
}

#[test]
fn directories_that_are_not_opened_are_not_read() {
    let asked = std::cell::RefCell::new(Vec::new());
    let read_dir = |dir: usize| {
        asked.borrow_mut().push(dir);
        disk(dir)
    };
    list_directory(&read_dir, 0, 0, 1);
    assert_eq!(*asked.borrow(), vec![0, 1, 2]);
}

#[test]
fn the_order_of_reading_does_not_matter() {
    let reversed = |dir: usize| {
        disk(dir).map(|mut found| {
            found.reverse();
            found
        })
    };
    let drawn = build_tree(&list_directory(&disk, 0, 0, 3), "", 0, 3);
    assert_eq!(build_tree(&list_directory(&reversed, 0, 0, 3), "", 0, 3), drawn);
}

#[test]
fn names_that_are_no_text_keep_their_place() {
    let entry = |name: &str, raw: &[u8]| Found {
        name: name.to_string(),
        raw: raw.to_vec(),
        is_dir: false,
        id: 0,
    };
    let sorted = sort_entries(vec![
        entry("\u{fffd}", &[0xff]),
        entry("\u{ffff}", "\u{ffff}".as_bytes()),
        entry("\u{fffd}b", &[0x80, b'b']),
        entry("a", b"a"),
    ]);
    let raw: Vec<&[u8]> = sorted.iter().map(|e| e.raw.as_slice()).collect();
    assert_eq!(raw, vec![&b"a"[..], &[0x80, b'b'][..], "\u{ffff}".as_bytes(), &[0xff][..]]);
}

#[test]
fn symbols_of_two_lists_come_one_after_the_other() {
    let second = "gamma\tx.rs\tline:9\n";
    let mut expected = parse_ctags_output(TAGS);
    expected.extend(parse_ctags_output(second));
    assert_eq!(parse_ctags_output(&format!("{}{}", TAGS, second)), expected);
}
