use autobahn::util::text::{i32_text, parse_i32, parse_u16};

#[test]
fn parse_i32_matches_std() {
    for s in ["0", "-0", "+0", "42", "-42", "+42", "2147483647", "-2147483648", "2147483648", "-2147483649", "", "+", "-", "1a", " 1", "00012", "+-1"] {
        assert_eq!(parse_i32(s), s.parse::<i32>().ok(), "{}", s);
    }
}

#[test]
fn parse_u16_matches_std() {
    for s in ["0", "65535", "65536", "-0", "+1", "-1", "", "+", "12x", "0007"] {
        assert_eq!(parse_u16(s), s.parse::<u16>().ok(), "{}", s);
    }
}

#[test]
fn i32_text_matches_display() {
    for v in [0, 1, -1, 9, 10, 99, 100, 12345, -98765, i32::MAX, i32::MIN] {
        assert_eq!(i32_text(v), v.to_string());
    }
}
