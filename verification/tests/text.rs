//! Characters, trimming and numbers, held against std.

use murmure::text::{decimal, is_control, is_in, is_white, parse_count, trimmed};

#[test]
fn white_space_and_control_characters_are_those_of_unicode() {
    for n in 0u32..0x11_0000 {
        if let Some(c) = char::from_u32(n) {
            assert_eq!(is_white(c), c.is_whitespace(), "{n:x}");
            assert_eq!(is_control(c), c.is_control(), "{n:x}");
        }
    }
}

#[test]
fn trimming_is_std_s() {
    for s in ["", " ", "a", " a ", "\t a b\u{a0}\n", "\u{3000}é\u{2028}", "a\u{200b}"] {
        assert_eq!(trimmed(s), s.trim());
    }
}

#[test]
fn counts_are_read_as_std_reads_them() {
    for s in [
        "", "0", "7", "007", "+5", "+", "++1", "-1", "1 ", "1a", "18446744073709551615",
        "18446744073709551616", "99999999999999999999999", "٣", "000000000000000000000000001",
    ] {
        assert_eq!(parse_count(s), s.parse::<usize>().ok(), "{s:?}");
    }
}

#[test]
fn numbers_are_written_in_decimal() {
    for n in [0u128, 9, 10, 99, 100, 12345, u64::MAX as u128, u128::MAX] {
        assert_eq!(decimal(n), n.to_string());
    }
}

#[test]
fn a_text_is_found_in_another() {
    for (p, s) in [("", ""), ("", "a"), ("a", ""), ("ab", "aab"), ("aab", "aaab"), ("é", "caé"), ("x", "abc")] {
        assert_eq!(is_in(p, s), s.contains(p), "{p:?} {s:?}");
    }
}
