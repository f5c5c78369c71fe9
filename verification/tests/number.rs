use wikipedia_sz_bot::number::{decimal_text, parse};

#[test]
fn writes_numbers_as_decimals() {
    for n in [0, 7, 10, 99, 100, 12_345, u64::MAX] {
        assert_eq!(decimal_text(n), n.to_string());
        assert_eq!(parse(&decimal_text(n), u64::MAX), Some(n));
    }
}

#[test]
fn parses_numbers_as_strings_do() {
    for s in [
        "", "+", "-", "0", "00", "+7", "-7", "--7", "+ 7", "7 ", " 7", "1_000", "1,000", "٣", "x",
        "18446744073709551615", "18446744073709551616", "00018446744073709551615",
        "99999999999999999999999", "+00",
    ] {
        assert_eq!(parse(s, u64::MAX), s.parse::<u64>().ok(), "{s}");
        assert_eq!(parse(s, u16::MAX as u64), s.parse::<u16>().ok().map(u64::from), "{s}");
    }
    assert_eq!(parse("65535", 65535), Some(65535));
    assert_eq!(parse("65536", 65535), None);
    assert_eq!(parse("+5", 9), Some(5));
}
