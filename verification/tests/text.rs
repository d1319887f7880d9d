use urshort::text::{parse_unsigned, strip_prefix};

#[test]
fn parse_unsigned_reads_decimal_numerals() {
    assert_eq!(parse_unsigned("0", u64::MAX), Some(0));
    assert_eq!(parse_unsigned("7", u64::MAX), Some(7));
    assert_eq!(parse_unsigned("8080", u64::MAX), Some(8080));
    assert_eq!(parse_unsigned("1234567890", u64::MAX), Some(1234567890));
}

#[test]
fn parse_unsigned_accepts_a_plus_and_leading_zeros() {
    assert_eq!(parse_unsigned("+42", 100), Some(42));
    assert_eq!(parse_unsigned("0042", 100), Some(42));
    assert_eq!(parse_unsigned("+0042", 100), Some(42));
    assert_eq!(parse_unsigned("000000000000000000000000000001", 1), Some(1));
}

#[test]
fn parse_unsigned_rejects_what_is_no_numeral() {
    assert_eq!(parse_unsigned("", 100), None);
    assert_eq!(parse_unsigned("+", 100), None);
    assert_eq!(parse_unsigned("-", 100), None);
    assert_eq!(parse_unsigned("-0", 100), None);
    assert_eq!(parse_unsigned("-3000", u64::MAX), None);
    assert_eq!(parse_unsigned("++1", 100), None);
    assert_eq!(parse_unsigned("1+", 100), None);
    assert_eq!(parse_unsigned(" 1", 100), None);
    assert_eq!(parse_unsigned("1 ", 100), None);
    assert_eq!(parse_unsigned("1_0", 100), None);
    assert_eq!(parse_unsigned("1.0", 100), None);
    assert_eq!(parse_unsigned("0x10", 100), None);
    assert_eq!(parse_unsigned("notANumber", 100), None);
    assert_eq!(parse_unsigned("١٢", 100), None);
    assert_eq!(parse_unsigned("1é", 100), None);
}

#[test]
fn parse_unsigned_respects_the_bound() {
    assert_eq!(parse_unsigned("65535", 65535), Some(65535));
    assert_eq!(parse_unsigned("65536", 65535), None);
    assert_eq!(parse_unsigned("5", 4), None);
    assert_eq!(parse_unsigned("4", 4), Some(4));
    assert_eq!(parse_unsigned("0", 0), Some(0));
    assert_eq!(parse_unsigned("1", 0), None);
    assert_eq!(parse_unsigned("10", 9), None);
    assert_eq!(
        parse_unsigned("18446744073709551615", u64::MAX),
        Some(u64::MAX)
    );
    assert_eq!(parse_unsigned("18446744073709551616", u64::MAX), None);
    assert_eq!(parse_unsigned("99999999999999999999999999", u64::MAX), None);
}

#[test]
fn parse_unsigned_agrees_with_std() {
    for text in [
        "0", "1", "+1", "-1", "", "+", "65535", "65536", "007", " 7", "7 ", "7a", "a7", "1e3",
    ] {
        assert_eq!(
            parse_unsigned(text, u16::MAX as u64),
            text.parse::<u16>().ok().map(u64::from),
            "{:?}",
            text
        );
    }
}

#[test]
fn strip_prefix_takes_the_prefix_away() {
    assert_eq!(strip_prefix("PREFIX_key", "PREFIX_"), Some("key".to_string()));
    assert_eq!(strip_prefix("PREFIX_", "PREFIX_"), Some(String::new()));
    assert_eq!(strip_prefix("anything", ""), Some("anything".to_string()));
    assert_eq!(strip_prefix("", ""), Some(String::new()));
}

#[test]
fn strip_prefix_needs_the_prefix_in_front() {
    assert_eq!(strip_prefix("key", "PREFIX_"), None);
    assert_eq!(strip_prefix("xPREFIX_key", "PREFIX_"), None);
    assert_eq!(strip_prefix("PREFIX", "PREFIX_"), None);
    assert_eq!(strip_prefix("", "P"), None);
    assert_eq!(strip_prefix("prefix_key", "PREFIX_"), None);
}

#[test]
fn strip_prefix_counts_characters_not_bytes() {
    assert_eq!(strip_prefix("ñandú_key", "ñandú_"), Some("key".to_string()));
    assert_eq!(strip_prefix("日本語キー", "日本"), Some("語キー".to_string()));
    assert_eq!(strip_prefix("aé", "a"), Some("é".to_string()));
}
