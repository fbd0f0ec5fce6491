use rok::text::{
    chars_of, contains, decimal_of, find_char, first_line_of, padded, parse_i32_of,
    remove_all_of, trimmed, white_space,
};

fn chars(s: &str) -> Vec<char> {
    s.chars().collect()
}

fn text(v: &[char]) -> String {
    v.iter().collect()
}

#[test]
fn chars_in_order() {
    assert_eq!(chars_of("aé€"), vec!['a', 'é', '€']);
}

#[test]
fn find_first_or_length() {
    assert_eq!(find_char(&chars("a b c"), ' '), 1);
    assert_eq!(find_char(&chars("abc"), ' '), 3);
}

#[test]
fn first_line_stops_at_line_feed() {
    assert_eq!(text(&first_line_of(&chars("ab\ncd\n"))), "ab");
    assert_eq!(text(&first_line_of(&chars("abc"))), "abc");
    assert_eq!(text(&first_line_of(&chars("\nx"))), "");
}

#[test]
fn contains_finds_substrings() {
    assert!(contains(&chars("xxHTTP/1.1"), &chars("HTTP/1.1")));
    assert!(!contains(&chars("HTTP/1."), &chars("HTTP/1.1")));
    assert!(contains(&chars("abc"), &chars("")));
}

#[test]
fn remove_all_matches_replace() {
    for (hay, pat) in [("aaa", "aa"), ("abab", "ab"), ("xabx", "ab"), ("abc", ""), ("", "a")] {
        assert_eq!(text(&remove_all_of(&chars(hay), &chars(pat))), hay.replace(pat, ""));
    }
}

#[test]
fn trim_matches_str_trim() {
    for s in ["  a b \r\n", "\u{a0}x\u{3000}", "   ", "", "y", "\u{85}z\u{2029}"] {
        assert_eq!(text(&trimmed(&chars(s))), s.trim());
    }
}

#[test]
fn white_space_matches_char() {
    for c in ['\t', '\n', ' ', '\u{85}', '\u{a0}', '\u{2003}', '\u{200b}', 'a', '\u{3000}', '\u{180e}'] {
        assert_eq!(white_space(c), c.is_whitespace());
    }
}

#[test]
fn parse_matches_std() {
    for s in ["0", "+5", "-0", "-5", "2147483647", "2147483648", "-2147483648", "-2147483649",
              "", "+", "-", "1a", "007", "99999999999999999999", "٣"] {
        assert_eq!(parse_i32_of(&chars(s)), s.parse::<i32>().ok(), "{}", s);
    }
}

#[test]
fn decimal_matches_to_string() {
    for n in [0i32, 7, 10, 404, -1, i32::MAX, i32::MIN] {
        assert_eq!(text(&decimal_of(n)), n.to_string());
    }
}

#[test]
fn padding_matches_format() {
    assert_eq!(text(&padded(&chars("ab"), 5)), format!("{:<5}", "ab"));
    assert_eq!(text(&padded(&chars("abcdef"), 5)), format!("{:<5}", "abcdef"));
}
