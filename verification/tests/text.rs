use platypus::text::{
    is_blank, is_whitespace, join, replace_char, same_ignoring_ascii_case, split_words,
    starts_with, to_ascii_lower, to_decimal, to_two_digits, trim_class, trim_end_class,
    trim_white, up_to, word_count, CharClass,
};

#[test]
fn white_space_is_what_the_standard_library_takes_for_it() {
    for n in 0..=0x10ffffu32 {
        if let Some(c) = char::from_u32(n) {
            assert_eq!(is_whitespace(c), c.is_whitespace(), "{:x}", n);
        }
    }
}

#[test]
fn trimming_takes_off_both_ends() {
    assert_eq!(trim_white("  a b\t\n"), "a b");
    assert_eq!(trim_white("\u{a0}x\u{3000}"), "x");
    assert_eq!(trim_white(" \n "), "");
    assert_eq!(trim_class("--a-b--", CharClass::Just('-')), "a-b");
    assert_eq!(trim_end_class("--a--", CharClass::Just('-')), "--a");
    assert!(is_blank(" \t"));
    assert!(!is_blank(" x"));
}

#[test]
fn words_are_split_at_white_space() {
    assert_eq!(split_words("  ala ma\tkota\n"), vec!["ala", "ma", "kota"]);
    assert_eq!(word_count(""), 0);
    assert_eq!(word_count("one two  three"), 3);
    assert_eq!(
        join(&vec!["a".to_string(), "b".to_string()], " "),
        "a b".to_string()
    );
}

#[test]
fn numbers_are_written_in_decimal() {
    assert_eq!(to_decimal(0), "0");
    assert_eq!(to_decimal(10_203), "10203");
    assert_eq!(to_decimal(u64::MAX), format!("{}", u64::MAX));
    assert_eq!(to_two_digits(7), "07");
    assert_eq!(to_two_digits(59), "59");
    assert_eq!(to_two_digits(123), "123");
}

#[test]
fn letters_are_compared_without_case_in_ascii_only() {
    assert!(same_ignoring_ascii_case("TrUe", "true"));
    assert!(!same_ignoring_ascii_case("Ł", "ł"));
    assert_eq!(to_ascii_lower("ÀB"), "Àb");
    assert!(starts_with("dpapi:x", "dpapi:"));
    assert!(!starts_with("dpa", "dpapi:"));
    assert_eq!(up_to("Weekly sync | Microsoft Teams", '|'), "Weekly sync ");
    assert_eq!(up_to("none", '|'), "none");
    assert_eq!(replace_char("a\nb\n", '\n', " "), "a b ");
}
