use felix_state::text::{
    ascii_lower_text, blank_text, chars_of, contains_text, decimal_text, order_texts,
    signed_decimal_text, skip_chars, take_chars, text_between, trim, white_space,
};

#[test]
fn decimal_of_numbers() {
    assert_eq!(decimal_text(0), "0");
    assert_eq!(decimal_text(9), "9");
    assert_eq!(decimal_text(10), "10");
    assert_eq!(decimal_text(1_024), "1024");
    assert_eq!(decimal_text(u64::MAX), "18446744073709551615");
}

#[test]
fn decimal_of_signed_numbers() {
    assert_eq!(signed_decimal_text(0), "0");
    assert_eq!(signed_decimal_text(-7), "-7");
    assert_eq!(signed_decimal_text(1_660_000_000), "1660000000");
    assert_eq!(signed_decimal_text(i64::MIN), "-9223372036854775808");
    assert_eq!(signed_decimal_text(i64::MAX), "9223372036854775807");
}

#[test]
fn characters_are_counted_not_bytes() {
    assert_eq!(chars_of("aé»"), vec!['a', 'é', '»']);
    assert_eq!(take_chars("é»x", 2), "é»");
    assert_eq!(take_chars("é»", 9), "é»");
    assert_eq!(skip_chars("é»x", 2), "x");
    assert_eq!(skip_chars("é»", 2), "");
    assert_eq!(skip_chars("é»", 11), "");
    assert_eq!(text_between(&vec!['a', 'b', 'c', 'd'], 1, 3), "bc");
}

#[test]
fn white_space_is_that_of_unicode() {
    for value in 0..=0x10ffff {
        if let Some(c) = char::from_u32(value) {
            assert_eq!(white_space(c), c.is_whitespace(), "{:x}", value);
        }
    }
}

#[test]
fn trim_both_ends() {
    assert_eq!(trim(" \t main branch\u{3000}\n"), "main branch");
    assert_eq!(trim("main"), "main");
    assert_eq!(trim(" \n "), "");
    assert_eq!(trim(""), "");
}

#[test]
fn lower_case_of_ascii_letters_only() {
    assert_eq!(ascii_lower_text("AZaz09[`É"), "azaz09[`É");
}

#[test]
fn search_for_text() {
    assert!(contains_text("xterm-kitty", "kitty"));
    assert!(contains_text("kikitty", "kitty"));
    assert!(contains_text("kitty", ""));
    assert!(contains_text("", ""));
    assert!(!contains_text("xterm", "kitty"));
    assert!(!contains_text("kitt", "kitty"));
}

#[test]
fn blanks_of_a_width() {
    assert_eq!(blank_text(0), "");
    assert_eq!(blank_text(3), "   ");
}

#[test]
fn order_of_texts_is_that_of_strings() {
    let texts = ["", "a", "ab", "b", "é", "2022-01-01", "2022-01-02", "ｚ", "𝄞"];
    for left in texts {
        for right in texts {
            let expected = match left.partial_cmp(right).unwrap() {
                std::cmp::Ordering::Less => -1,
                std::cmp::Ordering::Equal => 0,
                std::cmp::Ordering::Greater => 1,
            };
            assert_eq!(order_texts(left, right), expected, "{} {}", left, right);
        }
    }
}
