use signature_extractor::text::{
    append, char_is_whitespace, chars_of, find, join_lines, matches_at, remove_all, split_lines,
    starts_with, string_of, strip_prefix, subrange, trim,
};

fn chars_t(s: &str) -> Vec<char> {
    s.chars().collect()
}

fn string_t(v: &[char]) -> String {
    v.iter().collect()
}

fn lines_t(v: &[Vec<char>]) -> Vec<String> {
    v.iter().map(|line| string_t(line)).collect()
}

#[test]
fn whitespace_is_what_std_calls_whitespace() {
    let mut code: u32 = 0;
    while code <= 0x10FFFF {
        if let Some(c) = char::from_u32(code) {
            assert_eq!(char_is_whitespace(c), c.is_whitespace(), "U+{:04X}", code);
        }
        code += 1;
    }
}

#[test]
fn whitespace_examples() {
    assert!(char_is_whitespace(' '));
    assert!(char_is_whitespace('\t'));
    assert!(char_is_whitespace('\n'));
    assert!(char_is_whitespace('\r'));
    assert!(char_is_whitespace('\u{A0}'));
    assert!(char_is_whitespace('\u{3000}'));
    assert!(!char_is_whitespace('a'));
    assert!(!char_is_whitespace('\u{200B}'));
    assert!(!char_is_whitespace('\u{0}'));
}

#[test]
fn chars_and_strings_round_trip() {
    let text = "Geolocalização (DD): 0,0 — fim";
    assert_eq!(chars_of(text), chars_t(text));
    assert_eq!(string_of(&chars_t(text)), text.to_string());
    assert_eq!(chars_of(""), Vec::<char>::new());
    assert_eq!(string_of(&Vec::new()), String::new());
}

#[test]
fn subrange_copies_the_given_positions() {
    let v = chars_t("abcdef");
    assert_eq!(string_t(&subrange(&v, 1, 4)), "bcd");
    assert_eq!(string_t(&subrange(&v, 0, 6)), "abcdef");
    assert_eq!(string_t(&subrange(&v, 3, 3)), "");
}

#[test]
fn append_puts_one_text_after_another() {
    assert_eq!(string_t(&append(&chars_t("abc"), &chars_t("de"))), "abcde");
    assert_eq!(string_t(&append(&chars_t(""), &chars_t("de"))), "de");
    assert_eq!(string_t(&append(&chars_t("abc"), &chars_t(""))), "abc");
}

#[test]
fn trim_removes_whitespace_at_both_ends() {
    assert_eq!(string_t(&trim(&chars_t("  a b  "))), "a b");
    assert_eq!(string_t(&trim(&chars_t("\t\r\n x\u{A0}\u{3000}"))), "x");
    assert_eq!(string_t(&trim(&chars_t("abc"))), "abc");
    assert_eq!(string_t(&trim(&chars_t("   "))), "");
    assert_eq!(string_t(&trim(&chars_t(""))), "");
}

#[test]
fn trim_agrees_with_std() {
    let samples = [
        "",
        " ",
        "a",
        " a",
        "a ",
        "  IP de acesso: 186.251.21.12 \r",
        "\u{2003}Página 1\u{2028}",
        "\n\n16/07/2025 15:10:19\n\n",
        " \t x  y \t ",
    ];
    for sample in samples {
        assert_eq!(string_t(&trim(&chars_t(sample))), sample.trim(), "{:?}", sample);
    }
}

#[test]
fn split_lines_ends_lines_at_line_feeds() {
    assert_eq!(lines_t(&split_lines(&chars_t("a\nb\nc"))), vec!["a", "b", "c"]);
    assert_eq!(lines_t(&split_lines(&chars_t("a\nb\n"))), vec!["a", "b"]);
    assert_eq!(lines_t(&split_lines(&chars_t("a\n\nb"))), vec!["a", "", "b"]);
    assert_eq!(lines_t(&split_lines(&chars_t("\n"))), vec![""]);
    assert_eq!(lines_t(&split_lines(&chars_t(""))), Vec::<String>::new());
    assert_eq!(lines_t(&split_lines(&chars_t("abc"))), vec!["abc"]);
}

#[test]
fn split_lines_drops_the_carriage_return_before_a_line_feed() {
    assert_eq!(lines_t(&split_lines(&chars_t("a\r\nb\r\n"))), vec!["a", "b"]);
    assert_eq!(lines_t(&split_lines(&chars_t("a\r\r\nb"))), vec!["a\r", "b"]);
    assert_eq!(lines_t(&split_lines(&chars_t("a\rb\nc"))), vec!["a\rb", "c"]);
    assert_eq!(lines_t(&split_lines(&chars_t("\r\n"))), vec![""]);
}

#[test]
fn split_lines_keeps_a_carriage_return_at_the_very_end() {
    assert_eq!(lines_t(&split_lines(&chars_t("a\nb\r"))), vec!["a", "b\r"]);
    assert_eq!(lines_t(&split_lines(&chars_t("\r"))), vec!["\r"]);
}

#[test]
fn split_lines_agrees_with_std() {
    let samples = [
        "",
        "\n",
        "\r\n",
        "\r",
        "a",
        "a\n",
        "a\r\n",
        "a\r",
        "a\n\r",
        "\n\na\n\n",
        "um\r\ndois\ntrês\r\n\r\nquatro",
        "x\r\r\ny\r",
    ];
    for sample in samples {
        let expected: Vec<String> = sample.lines().map(|line| line.to_string()).collect();
        assert_eq!(lines_t(&split_lines(&chars_t(sample))), expected, "{:?}", sample);
    }
}

#[test]
fn join_lines_puts_line_feeds_between() {
    let lines = vec![chars_t("a"), chars_t("b c"), chars_t("d")];
    assert_eq!(string_t(&join_lines(&lines)), "a\nb c\nd");
    assert_eq!(string_t(&join_lines(&vec![chars_t("only")])), "only");
    assert_eq!(string_t(&join_lines(&Vec::new())), "");
    assert_eq!(string_t(&join_lines(&vec![chars_t(""), chars_t("")])), "\n");
}

#[test]
fn split_lines_undoes_join_lines() {
    let lines = vec![chars_t("Dispositivo: X"), chars_t("y"), chars_t("IP de acesso: 1")];
    assert_eq!(split_lines(&join_lines(&lines)), lines);
}

#[test]
fn matches_at_compares_in_place() {
    let hay = chars_t("abcabc");
    assert!(matches_at(&hay, &chars_t("abc"), 0));
    assert!(matches_at(&hay, &chars_t("abc"), 3));
    assert!(!matches_at(&hay, &chars_t("abc"), 1));
    assert!(!matches_at(&hay, &chars_t("abc"), 4));
    assert!(!matches_at(&hay, &chars_t("abc"), 7));
    assert!(matches_at(&hay, &chars_t(""), 6));
    assert!(!matches_at(&hay, &chars_t(""), 7));
}

#[test]
fn starts_with_and_strip_prefix() {
    let line = chars_t("IP de acesso: 186.251.21.12");
    assert!(starts_with(&line, &chars_t("IP de acesso:")));
    assert!(!starts_with(&line, &chars_t("IP de acesso:x")));
    assert!(starts_with(&line, &chars_t("")));
    assert!(!starts_with(&chars_t("IP"), &chars_t("IP de acesso:")));
    assert_eq!(
        strip_prefix(&line, &chars_t("IP de acesso:")).map(|rest| string_t(&rest)),
        Some(" 186.251.21.12".to_string())
    );
    assert_eq!(strip_prefix(&line, &chars_t("Dispositivo:")), None);
    assert_eq!(strip_prefix(&line, &line), Some(Vec::new()));
}

#[test]
fn find_gives_the_leftmost_occurrence() {
    assert_eq!(find(&chars_t("xxabxxab"), &chars_t("ab")), Some(2));
    assert_eq!(find(&chars_t("abab"), &chars_t("ab")), Some(0));
    assert_eq!(find(&chars_t("aaab"), &chars_t("aab")), Some(1));
    assert_eq!(find(&chars_t("abc"), &chars_t("abcd")), None);
    assert_eq!(find(&chars_t("abc"), &chars_t("x")), None);
    assert_eq!(find(&chars_t("abc"), &chars_t("c")), Some(2));
    assert_eq!(find(&chars_t("abc"), &chars_t("")), Some(0));
    assert_eq!(find(&chars_t(""), &chars_t("")), Some(0));
    assert_eq!(find(&chars_t(""), &chars_t("a")), None);
}

#[test]
fn find_counts_characters_not_bytes() {
    assert_eq!(find(&chars_t("ção: x"), &chars_t("x")), Some(5));
}

#[test]
fn remove_all_takes_out_every_occurrence() {
    assert_eq!(string_t(&remove_all(&chars_t("a--b--c"), &chars_t("--"))), "abc");
    assert_eq!(string_t(&remove_all(&chars_t("aaa"), &chars_t("aa"))), "a");
    assert_eq!(string_t(&remove_all(&chars_t("ababa"), &chars_t("aba"))), "ba");
    assert_eq!(string_t(&remove_all(&chars_t("abc"), &chars_t("x"))), "abc");
    assert_eq!(string_t(&remove_all(&chars_t("abc"), &chars_t(""))), "abc");
    assert_eq!(string_t(&remove_all(&chars_t("abc"), &chars_t("abc"))), "");
    assert_eq!(string_t(&remove_all(&chars_t(""), &chars_t("abc"))), "");
}

#[test]
fn remove_all_agrees_with_std() {
    let samples = [
        ("", "a"),
        ("aaaa", "aa"),
        ("aaaaa", "aa"),
        ("abcabcab", "abc"),
        ("xHEADxxHEAD", "HEAD"),
        ("no occurrence", "zz"),
        ("ababab", "bab"),
    ];
    for (hay, needle) in samples {
        assert_eq!(
            string_t(&remove_all(&chars_t(hay), &chars_t(needle))),
            hay.replace(needle, ""),
            "{:?} without {:?}",
            hay,
            needle
        );
    }
}
