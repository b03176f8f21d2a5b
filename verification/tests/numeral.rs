use rusty_counter::numeral::{i32_to_dec, parse_i32, trim_ascii};

#[test]
fn test_parse_plain_values() {
    assert_eq!(parse_i32(b"0"), Some(0));
    assert_eq!(parse_i32(b"1234"), Some(1234));
    assert_eq!(parse_i32(b"-17"), Some(-17));
    assert_eq!(parse_i32(b"+5"), Some(5));
    assert_eq!(parse_i32(b"007"), Some(7));
    assert_eq!(parse_i32(b"-0"), Some(0));
}

#[test]
fn test_parse_limits() {
    assert_eq!(parse_i32(b"2147483647"), Some(i32::MAX));
    assert_eq!(parse_i32(b"2147483648"), None);
    assert_eq!(parse_i32(b"-2147483648"), Some(i32::MIN));
    assert_eq!(parse_i32(b"-2147483649"), None);
    assert_eq!(parse_i32(b"99999999999999999999"), None);
    assert_eq!(parse_i32(b"-99999999999999999999"), None);
}

#[test]
fn test_parse_rejects_malformed_input() {
    assert_eq!(parse_i32(b""), None);
    assert_eq!(parse_i32(b"-"), None);
    assert_eq!(parse_i32(b"+"), None);
    assert_eq!(parse_i32(b"abc"), None);
    assert_eq!(parse_i32(b"12a"), None);
    assert_eq!(parse_i32(b"1 2"), None);
    assert_eq!(parse_i32(b" 1"), None);
    assert_eq!(parse_i32(b"--1"), None);
    assert_eq!(parse_i32(b"corrupted_data"), None);
}

#[test]
fn test_format_plain_values() {
    assert_eq!(i32_to_dec(0), b"0".to_vec());
    assert_eq!(i32_to_dec(42), b"42".to_vec());
    assert_eq!(i32_to_dec(-1), b"-1".to_vec());
    assert_eq!(i32_to_dec(1500), b"1500".to_vec());
    assert_eq!(i32_to_dec(i32::MAX), b"2147483647".to_vec());
    assert_eq!(i32_to_dec(i32::MIN), b"-2147483648".to_vec());
}

#[test]
fn test_format_then_parse_round_trip() {
    for v in [0, 1, -1, 9, 10, -10, 1234, -1234, i32::MAX, i32::MIN] {
        let bytes = i32_to_dec(v);
        assert_eq!(parse_i32(&bytes), Some(v));
    }
}

#[test]
fn test_trim_surrounding_whitespace() {
    assert_eq!(trim_ascii(b"  42 \n"), b"42".to_vec());
    assert_eq!(trim_ascii(b"\t\r\x0c 7"), b"7".to_vec());
    assert_eq!(trim_ascii(b"1234"), b"1234".to_vec());
    assert_eq!(trim_ascii(b"   "), Vec::<u8>::new());
    assert_eq!(trim_ascii(b""), Vec::<u8>::new());
    assert_eq!(trim_ascii(b"a b"), b"a b".to_vec());
}
