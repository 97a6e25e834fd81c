use chess_ai_rust::text::{chars_of, parse_i32, parse_u32, split_fields, text_contains, text_eq};

#[test]
fn test_integers_parse_as_std_does() {
    for s in [
        "0", "7", "+7", "-7", "-0", "+", "-", "", "12a", "2147483647", "2147483648",
        "-2147483648", "-2147483649", "4294967295", "4294967296", "00042", "--1", "+-1", " 1",
        "١",
    ] {
        assert_eq!(parse_i32(s), s.parse::<i32>().ok(), "i32 {s:?}");
        assert_eq!(parse_u32(s), s.parse::<u32>().ok(), "u32 {s:?}");
    }
}

#[test]
fn test_fields_split_as_std_does() {
    for s in [
        "",
        "   ",
        "info depth 10 score cp -37",
        "  leading and trailing  ",
        "tabs\tand\nnewlines",
        "no\u{a0}break\u{3000}ideographic",
    ] {
        let expected: Vec<Vec<char>> = s.split_whitespace().map(|w| w.chars().collect()).collect();
        assert_eq!(split_fields(&chars_of(s)), expected, "{s:?}");
    }
}

#[test]
fn test_text_comparisons() {
    assert!(text_eq("cp", "cp"));
    assert!(!text_eq("cp", "c"));
    assert!(text_contains("info score cp 3", "score cp"));
    assert!(text_contains("abc", ""));
    assert!(!text_contains("score c", "score cp"));
    assert!(text_contains("score mate", "mate"));
}
