use autocheck::clip::{clip, count_bytes};
use autocheck::edit::{count_occurrences, insert_after, replace_all};
use autocheck::lines::{add_line_numbers, join, join_range, split_lines};
use autocheck::number::{parse_usize, to_column4, to_decimal};
use autocheck::order::in_order;
use autocheck::text::{
    append_range, chars_of, find_from, first_char, has_text, matches_at, past_last_char, same_text,
    split_fields, split_once, starts_with, string_of, strip_prefix, trim,
};

fn chars(s: &str) -> Vec<char> {
    s.chars().collect()
}

fn strings(list: &[&str]) -> Vec<String> {
    list.iter().map(|s| s.to_string()).collect()
}

const SAMPLES: [&str; 14] = [
    "",
    "a",
    "\n",
    "\r\n",
    "a\n",
    "a\nb",
    "a\r\nb\r\n",
    "a\n\nb\n\n",
    "a\rb",
    "a\r",
    "  padded\t\n",
    "\u{a0}über\u{3000}",
    "aaaa",
    "héllo wörld ✅ 𝄞",
];

#[test]
fn characters_make_up_the_string_again() {
    for s in SAMPLES {
        assert_eq!(chars_of(s), chars(s));
        assert_eq!(string_of(&chars(s)), s);
    }
}

#[test]
fn a_range_is_appended() {
    let mut s = String::from("ab");
    append_range(&mut s, &chars("0123456"), 2, 5);
    assert_eq!(s, "ab234");
    append_range(&mut s, &chars("x"), 1, 1);
    assert_eq!(s, "ab234");
}

#[test]
fn lines_are_those_of_the_standard_library() {
    for s in SAMPLES {
        let expected: Vec<String> = s.lines().map(str::to_string).collect();
        assert_eq!(split_lines(s), expected, "{:?}", s);
    }
}

#[test]
fn searching_agrees_with_the_standard_library() {
    for s in SAMPLES {
        for p in ["", "a", "aa", "b", "\n", "wörld", "missing"] {
            let (sv, pv) = (chars(s), chars(p));
            assert_eq!(has_text(&sv, &pv), s.contains(p));
            assert_eq!(starts_with(&sv, &pv), s.starts_with(p));
            assert_eq!(
                strip_prefix(&sv, &pv).map(string_of),
                s.strip_prefix(p).map(str::to_string)
            );
            assert_eq!(
                split_once(&sv, &pv).map(|(a, b)| (string_of(a), string_of(b))),
                s.split_once(p).map(|(a, b)| (a.to_string(), b.to_string()))
            );
        }
    }
}

#[test]
fn the_least_position_is_found() {
    let s = chars("abcabc");
    assert_eq!(find_from(&s, &chars("bc"), 0), Some(1));
    assert_eq!(find_from(&s, &chars("bc"), 2), Some(4));
    assert_eq!(find_from(&s, &chars("bc"), 5), None);
    assert_eq!(find_from(&s, &chars(""), 6), Some(6));
    assert_eq!(find_from(&s, &chars(""), 7), None);
    assert!(matches_at(&s, &chars("ca"), 2));
    assert!(!matches_at(&s, &chars("ca"), 5));
}

#[test]
fn blanks_are_trimmed_as_in_the_standard_library() {
    for s in SAMPLES {
        assert_eq!(string_of(trim(&chars(s))), s.trim(), "{:?}", s);
    }
    for code in 0..0x3100u32 {
        if let Some(c) = char::from_u32(code) {
            let s = format!("{}x{}", c, c);
            assert_eq!(string_of(trim(&chars(&s))), s.trim(), "{:x}", code);
        }
    }
}

#[test]
fn there_is_one_more_field_than_separators() {
    assert_eq!(split_fields(&chars("a\tb\t\tc"), '\t'), strings(&["a", "b", "", "c"]));
    assert_eq!(split_fields(&chars(""), '\t'), strings(&[""]));
    assert_eq!(split_fields(&chars("\t"), '\t'), strings(&["", ""]));
}

#[test]
fn first_and_last_characters_are_found() {
    assert_eq!(first_char(&chars("ab{c{"), '{'), 2);
    assert_eq!(first_char(&chars("abc"), '{'), 3);
    assert_eq!(past_last_char(&chars("a}b}c"), '}'), 4);
    assert_eq!(past_last_char(&chars("abc"), '}'), 0);
}

#[test]
fn texts_are_ordered_as_in_the_standard_library() {
    for a in SAMPLES {
        for b in SAMPLES {
            assert_eq!(in_order(a.as_bytes(), b.as_bytes()), a <= b);
            assert_eq!(same_text(a, b), a == b);
        }
    }
}

#[test]
fn order_is_total_antisymmetric_and_transitive() {
    assert!(in_order(b"a", b"ab") && in_order(b"ab", b"b") && in_order(b"a", b"b"));
    assert!(!in_order(b"b", b"a"));
    assert!(in_order(b"Z", b"a"));
    assert!(in_order(b"z", &[0x80]) && !in_order(&[0xff], &[0x80, 0xff]));
    assert!(in_order(b"", b"") && !in_order(b"a", b""));
}

#[test]
fn numbers_are_written_in_decimal() {
    assert_eq!(to_decimal(0), "0");
    assert_eq!(to_decimal(9), "9");
    assert_eq!(to_decimal(10), "10");
    assert_eq!(to_decimal(10_000), "10000");
    assert_eq!(to_decimal(u64::MAX), "18446744073709551615");
}

#[test]
fn numbers_are_set_in_a_column() {
    assert_eq!(to_column4(0), "   0");
    assert_eq!(to_column4(42), "  42");
    assert_eq!(to_column4(1000), "1000");
    assert_eq!(to_column4(123456), "123456");
}

#[test]
fn numbers_are_read_as_in_the_standard_library() {
    for s in [
        "", "+", "-", "0", "007", "+7", "-7", "++7", "7 ", " 7", "1_0", "12a", "٣",
        "18446744073709551615", "18446744073709551616", "99999999999999999999999",
    ] {
        assert_eq!(parse_usize(&chars(s)), s.parse::<usize>().ok(), "{:?}", s);
    }
}

#[test]
fn reading_a_written_number_gives_the_number() {
    for n in [0usize, 1, 9, 10, 99, 100, 12345, usize::MAX] {
        assert_eq!(parse_usize(&chars(&to_decimal(n as u64))), Some(n));
    }
}

#[test]
fn lines_are_joined() {
    let parts = strings(&["a", "", "b"]);
    assert_eq!(join(&parts, "\n"), "a\n\nb");
    assert_eq!(join(&[], "\n"), "");
    assert_eq!(join_range(&parts, 1, 3, ", "), ", b");
    assert_eq!(join_range(&parts, 2, 2, ", "), "");
}

#[test]
fn joined_plain_lines_are_the_lines_again() {
    let ls = strings(&["one", "", "three", "four"]);
    assert_eq!(split_lines(&join(&ls, "\n")), ls);
    // An empty last line is lost.
    assert_eq!(split_lines(&join(&strings(&["one", ""]), "\n")), strings(&["one"]));
}

#[test]
fn lines_are_numbered() {
    assert_eq!(add_line_numbers("a\nb\r\nc", 9), "   9 | a\n  10 | b\n  11 | c");
    assert_eq!(add_line_numbers("", 1), "");
    assert_eq!(add_line_numbers("\n", 1), "   1 | ");
}

#[test]
fn numbering_goes_on_in_a_second_text() {
    let (a, b) = ("one\n\n", "three\nfour");
    let whole = add_line_numbers(&format!("{}{}", a, b), 7);
    assert_eq!(whole, format!("{}\n{}", add_line_numbers(a, 7), add_line_numbers(b, 9)));
}

#[test]
fn bytes_are_counted() {
    for s in SAMPLES {
        assert_eq!(count_bytes(s), s.len());
        assert!(s.chars().count() <= count_bytes(s));
    }
}

#[test]
fn text_is_cut_between_characters() {
    assert_eq!(clip("abc", 2), "ab");
    assert_eq!(clip("abc", 3), "abc");
    assert_eq!(clip("abc", 0), "");
    assert_eq!(clip("aé", 2), "a");
    assert_eq!(clip("aé", 3), "aé");
    assert_eq!(clip("✅x", 2), "");
    assert_eq!(clip("✅x", 3), "✅");
    assert_eq!(clip("a𝄞b", 4), "a");
    assert_eq!(clip("a𝄞b", 5), "a𝄞");
}

#[test]
fn occurrences_are_counted_as_in_the_standard_library() {
    for s in SAMPLES {
        for p in ["", "a", "aa", "aaa", "b", "\n", "wörld", "missing"] {
            assert_eq!(count_occurrences(s, p), s.matches(p).count(), "{:?} {:?}", s, p);
            assert_eq!(count_occurrences(s, p) > 0, s.contains(p));
        }
    }
}

#[test]
fn replacing_agrees_with_the_standard_library() {
    for s in SAMPLES {
        for p in ["", "a", "aa", "b", "\n", "wörld", "missing"] {
            for r in ["", "x", "aa", "a\nb"] {
                assert_eq!(replace_all(s, p, r), s.replace(p, r), "{:?} {:?} {:?}", s, p, r);
            }
        }
    }
}

#[test]
fn replacing_by_itself_or_nothing_changes_nothing() {
    assert_eq!(replace_all("abcabc", "bc", "bc"), "abcabc");
    assert_eq!(replace_all("abcabc", "", ""), "abcabc");
    assert_eq!(replace_all("abcabc", "x", "y"), "abcabc");
}

#[test]
fn each_replacement_changes_the_length() {
    let (s, p, r) = ("one two one", "one", "three");
    assert_eq!(replace_all(s, p, r).len(), s.len() + 2 * (r.len() - p.len()));
}

#[test]
fn text_is_inserted_after_the_first_anchor() {
    assert_eq!(insert_after("a b a", "a", "X"), Some("aX b a".to_string()));
    assert_eq!(insert_after("abc", "", "X"), Some("Xabc".to_string()));
    assert_eq!(insert_after("abc", "c", "X"), Some("abcX".to_string()));
    assert_eq!(insert_after("abc", "d", "X"), None);
    for s in SAMPLES {
        for p in ["", "a", "b", "missing"] {
            let anchored = format!("{}{}", p, "new");
            let expected = if s.contains(p) { Some(s.replacen(p, &anchored, 1)) } else { None };
            assert_eq!(insert_after(s, p, "new"), expected);
        }
    }
}
