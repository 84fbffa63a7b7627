use oai_proxy::decimal::{decimal_text, parse_decimal, parse_positive_or};
use oai_proxy::text::{
    chars_of, contains_chars, copy_opt, ends_with_chars, is_space_char, lower_chars,
    occurs_at_chars, same_text, split_chars, starts_with_chars, text_of, trim_end_chars,
    trim_end_mark_chars, trim_start_chars, trim_text,
};

#[test]
fn numbers_read_back_as_they_were_written() {
    for number in [0, 7, 10, 42, -1, 1_000_000, i64::MAX, i64::MIN] {
        assert_eq!(decimal_text(number), number.to_string());
        assert_eq!(parse_decimal(&decimal_text(number)), Some(number));
    }
}

#[test]
fn only_whole_numbers_in_range_are_read() {
    for text in [
        "", "+", "-", "+5", "-5", "007", "-0", "1 ", " 1", "1.5", "0x1", "--1", "+-1", "5000",
        "9223372036854775807", "9223372036854775808", "-9223372036854775808",
        "-9223372036854775809", "99999999999999999999999", "\u{661}",
    ] {
        assert_eq!(parse_decimal(text), text.parse::<i64>().ok(), "{text}");
    }
    assert_eq!(parse_positive_or(Some("250"), 7), 250);
    assert_eq!(parse_positive_or(Some("0"), 7), 7);
    assert_eq!(parse_positive_or(Some("x"), 7), 7);
    assert_eq!(parse_positive_or(None, 7), 7);
}

#[test]
fn white_space_is_what_unicode_says() {
    for code in 0..=0x3100u32 {
        if let Some(c) = char::from_u32(code) {
            assert_eq!(is_space_char(c), c.is_whitespace(), "{code:x}");
        }
    }
    assert_eq!(trim_text("\u{3000} a b\t\n"), "a b");
    assert_eq!(trim_text(" \u{a0} "), "");
    assert_eq!(text_of(trim_start_chars(&chars_of("  x "))), "x ");
    assert_eq!(text_of(trim_end_chars(&chars_of("  x "))), "  x");
    assert_eq!(text_of(trim_end_mark_chars(&chars_of("a//b//"), '/')), "a//b");
}

#[test]
fn pieces_lie_between_the_marks() {
    let split = |text: &str| -> Vec<String> {
        split_chars(&chars_of(text), ',').iter().map(|part| text_of(part)).collect()
    };
    for text in ["", ",", "a", "a,b", ",a,,b,", "中,文"] {
        let expected: Vec<String> = text.split(',').map(str::to_string).collect();
        assert_eq!(split(text), expected, "{text}");
    }
}

#[test]
fn texts_are_searched_and_compared() {
    let text = chars_of("data:memory");
    assert!(contains_chars(&text, &chars_of("a:m")));
    assert!(contains_chars(&text, &[]));
    assert!(!contains_chars(&text, &chars_of("memoryx")));
    assert!(starts_with_chars(&text, &chars_of("data:")));
    assert!(!starts_with_chars(&text, &chars_of("ata")));
    assert!(ends_with_chars(&text, &chars_of("memory")));
    assert!(!ends_with_chars(&text, &chars_of("memor")));
    assert!(occurs_at_chars(&text, &chars_of("ta"), 2));
    assert!(!occurs_at_chars(&text, &chars_of("ta"), 1));
    assert!(same_text("äb", "äb"));
    assert!(!same_text("a", "ab"));
    assert_eq!(text_of(&lower_chars(&chars_of("AbZ-Ä9["))), "abz-Ä9[");
    assert_eq!(copy_opt(&Some("x".to_string())), Some("x".to_string()));
    assert_eq!(copy_opt(&None), None);
}
