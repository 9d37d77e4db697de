use quiz_arena::text::{
    chars_of, parse_i64_text, parse_u32_text, parse_u64_text, same_text, starts_with,
};

#[test]
fn integers_parse_as_std_parses_them() {
    for s in [
        "0", "-0", "+0", "42", "-42", "+42", "", "+", "-", "4 2", "٣", "9223372036854775807",
        "9223372036854775808", "-9223372036854775808", "-9223372036854775809",
        "18446744073709551615", "18446744073709551616", "99999999999999999999999999",
        "00000000000000000000000000001",
    ] {
        assert_eq!(parse_i64_text(s), s.parse::<i64>().ok(), "{s:?}");
        assert_eq!(parse_u64_text(s), s.parse::<u64>().ok(), "{s:?}");
        assert_eq!(parse_u32_text(s), s.parse::<u32>().ok(), "{s:?}");
    }
}

#[test]
fn text_helpers() {
    assert_eq!(chars_of("aあ"), vec!['a', 'あ']);
    assert!(starts_with("/grpc.health.v1", "/grpc."));
    assert!(!starts_with("/grpc", "/grpc."));
    assert!(same_text("x", "x"));
    assert!(!same_text("x", "y"));
}
