use creeper_term::text::{bytes_eq, parse_uint_str, push_decimal, str_eq};

#[test]
fn unsigned_numbers_as_str_parse_reads_them() {
    assert_eq!(parse_uint_str("22", 65535), Some(22));
    assert_eq!(parse_uint_str("+2222", 65535), Some(2222));
    assert_eq!(parse_uint_str("007", 65535), Some(7));
    assert_eq!(parse_uint_str("65535", 65535), Some(65535));
    assert_eq!(parse_uint_str("65536", 65535), None);
    assert_eq!(parse_uint_str("4294967295", u32::MAX), Some(u32::MAX));
    assert_eq!(parse_uint_str("4294967296", u32::MAX), None);
    assert_eq!(parse_uint_str("99999999999999999999", u32::MAX), None);
    assert_eq!(parse_uint_str("", 65535), None);
    assert_eq!(parse_uint_str("+", 65535), None);
    assert_eq!(parse_uint_str("-1", 65535), None);
    assert_eq!(parse_uint_str(" 1", 65535), None);
    assert_eq!(parse_uint_str("1a", 65535), None);
    assert_eq!(parse_uint_str("++1", 65535), None);
}

#[test]
fn parse_agrees_with_std() {
    for s in ["0", "1", "+9", "65535", "65536", "", "x", "-0", "+", "0x10", "12 "] {
        assert_eq!(parse_uint_str(s, 65535), s.parse::<u16>().ok().map(u32::from), "input {:?}", s);
    }
}

#[test]
fn decimal_representation() {
    let mut s = String::from("n=");
    push_decimal(&mut s, 0);
    assert_eq!(s, "n=0");
    let mut s = String::new();
    push_decimal(&mut s, 1203);
    assert_eq!(s, "1203");
    let mut s = String::new();
    push_decimal(&mut s, usize::MAX);
    assert_eq!(s, usize::MAX.to_string());
}

#[test]
fn equality_of_bytes_and_strings() {
    assert!(bytes_eq(b"abc", b"abc"));
    assert!(!bytes_eq(b"abc", b"abd"));
    assert!(!bytes_eq(b"ab", b"abc"));
    assert!(bytes_eq(b"", b""));
    assert!(str_eq("caf\u{e9}", "caf\u{e9}"));
    assert!(!str_eq("cafe", "caf\u{e9}"));
}
