use l4dder_worker::text::{
    contains, digits_in, enc, find, is_white_space, join, parse_digits, parse_u32, short, trim,
    trim_end_char, trim_start_text,
};

fn chars(s: &str) -> Vec<char> {
    s.chars().collect()
}

#[test]
fn reserved_characters_are_escaped() {
    assert_eq!(enc("a b/c?d#e&f"), "a%20b%2Fc%3Fd%23e%26f");
}

#[test]
fn plain_text_is_kept() {
    assert_eq!(enc("Zoe-42_é.%"), "Zoe-42_é.%");
    assert_eq!(enc(""), "");
}

#[test]
fn encoding_goes_piece_by_piece() {
    assert_eq!(enc("a b&"), format!("{}{}", enc("a "), enc("b&")));
}

#[test]
fn a_percent_sign_is_not_escaped() {
    assert_eq!(enc("%20"), enc(" "));
    assert_ne!(enc("a b"), enc("a/b"));
}

#[test]
fn identifiers_are_cut_after_eight_bytes() {
    assert_eq!(short("0123456789abcdef"), "01234567");
    assert_eq!(short("01234567"), "01234567");
    assert_eq!(short("abc"), "abc");
    assert_eq!(short(""), "");
    assert_eq!(short("é234567890"), "é234567");
}

#[test]
fn white_space_is_that_of_unicode() {
    for n in 0..=0x10FFFFu32 {
        if let Some(c) = char::from_u32(n) {
            assert_eq!(is_white_space(c), c.is_whitespace(), "{:x}", n);
        }
    }
}

#[test]
fn both_ends_are_trimmed() {
    for s in ["", "  ", "\t a b \u{3000}\n", "ab", " ab", "ab\u{85}", "a\u{a0}b"] {
        assert_eq!(trim(s), s.trim());
    }
}

#[test]
fn slashes_at_the_end_are_taken_off() {
    assert_eq!(trim_end_char("https://x.org///", '/'), "https://x.org");
    assert_eq!(trim_end_char("https://x.org", '/'), "https://x.org");
    assert_eq!(trim_end_char("///", '/'), "");
    assert_eq!(trim_end_char("", '/'), "");
}

#[test]
fn repeated_starts_are_taken_off() {
    assert_eq!(trim_start_text("k=k=v", "k="), "v");
    assert_eq!(trim_start_text("vk=", "k="), "vk=");
    assert_eq!(trim_start_text("k=", "k="), "");
    assert_eq!(trim_start_text("k", "k="), "k");
    assert_eq!(trim_start_text("k", ""), "k");
}

#[test]
fn the_first_occurrence_is_found() {
    assert_eq!(find(&chars("aabab"), &chars("ab")), Some(1));
    assert_eq!(find(&chars("aaa"), &chars("b")), None);
    assert_eq!(find(&chars("ab"), &chars("ab")), Some(0));
    assert_eq!(find(&chars("xab"), &chars("ab")), Some(1));
    assert_eq!(find(&chars("a"), &chars("ab")), None);
    assert_eq!(find(&chars("a"), &chars("")), Some(0));
    assert!(contains("Badge Upload 3", "Upload"));
    assert!(!contains("Badge upload 3", "Upload"));
}

#[test]
fn digits_are_picked_out() {
    assert_eq!(digits_in("a1b2 3"), chars("123"));
    assert_eq!(digits_in("none"), chars(""));
    assert_eq!(digits_in("٣4"), chars("4"));
}

#[test]
fn digit_rows_are_read_up_to_a_bound() {
    assert_eq!(parse_digits(&chars("0042"), 0, 100), Some(42));
    assert_eq!(parse_digits(&chars("x42"), 1, 42), Some(42));
    assert_eq!(parse_digits(&chars("43"), 0, 42), None);
    assert_eq!(parse_digits(&chars("5"), 0, 4), None);
    assert_eq!(parse_digits(&chars("04"), 0, 4), Some(4));
    assert_eq!(parse_digits(&chars(""), 0, 42), None);
    assert_eq!(parse_digits(&chars("4x"), 0, 42), None);
    assert_eq!(
        parse_digits(&chars("18446744073709551615"), 0, u64::MAX),
        Some(u64::MAX)
    );
    assert_eq!(parse_digits(&chars("18446744073709551616"), 0, u64::MAX), None);
}

#[test]
fn numbers_are_read_as_std_reads_them() {
    for s in [
        "", "0", "7", "+7", "-7", "-0", "+", "++7", " 7", "7 ", "007", "4294967295", "4294967296",
        "99999999999999999999999", "1_000", "0x10", "٣",
    ] {
        assert_eq!(parse_u32(s), s.parse::<u32>().ok(), "{:?}", s);
    }
}

#[test]
fn texts_are_joined() {
    assert_eq!(join("https://x", "/login"), "https://x/login");
}
