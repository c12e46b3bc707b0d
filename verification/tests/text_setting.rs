use logi_wheel::setting::{map_io_error, Error, IoError, Kind, Value, Words};
use logi_wheel::text::{
    after_char_str, before_char_str, find_char, i64_to_dec, join_strs, parse_hex_u16_str, parse_i64_str, replace_char_str, str_eq, str_eq_ignore_ascii_case, trim_str, u64_to_dec,
};

#[test]
fn numbers_parse_as_rust_parses_them() {
    assert_eq!(parse_i64_str("900"), Some(900));
    assert_eq!(parse_i64_str("-45"), Some(-45));
    assert_eq!(parse_i64_str("+7"), Some(7));
    assert_eq!(parse_i64_str("9223372036854775807"), Some(i64::MAX));
    assert_eq!(parse_i64_str("-9223372036854775808"), Some(i64::MIN));
    assert_eq!(parse_i64_str("9223372036854775808"), None);
    assert_eq!(parse_i64_str(""), None);
    assert_eq!(parse_i64_str("-"), None);
    assert_eq!(parse_i64_str("1 2"), None);
}

#[test]
fn decimal_text_round_trips() {
    assert_eq!(u64_to_dec(0), "0");
    assert_eq!(u64_to_dec(18446744073709551615), "18446744073709551615");
    assert_eq!(i64_to_dec(i64::MIN), "-9223372036854775808");
    assert_eq!(i64_to_dec(-3), "-3");
}

#[test]
fn trimming_and_comparing_text() {
    assert_eq!(trim_str("  desktop\n"), "desktop");
    assert_eq!(trim_str("\t\n"), "");
    assert!(str_eq("tf", "tf"));
    assert!(!str_eq("tf", "t"));
    assert!(str_eq_ignore_ascii_case("iRacing", "IRACING"));
    assert!(!str_eq_ignore_ascii_case("iracing", "iracin"));
    assert_eq!(replace_char_str("a\nb\n", '\n', " / "), "a / b / ");
    assert_eq!(join_strs(&vec!["a", "b", "c"], ", "), "a, b, c");
    assert_eq!(join_strs(&vec![], ", "), "");
}

#[test]
fn kinds_parse_validate_and_format_values() {
    let range = Kind::Int { min: 90, max: 2700 };
    assert_eq!(range.parse(" 900\n"), Ok(Value::Int(900)));
    assert_eq!(range.parse("wide"), Err(Error::Invalid));
    assert_eq!(range.validate(&Value::Int(89)), Err(Error::OutOfRange));
    assert_eq!(range.validate(&Value::Percent(5)), Err(Error::Invalid));
    assert_eq!(range.format(&Value::Int(540)).unwrap(), "540");
    assert_eq!(Kind::Percent.parse("101"), Err(Error::Invalid));
    assert_eq!(Kind::Enum(Words::CombinePedals).parse("2"), Ok(Value::Enum(2)));
    assert_eq!(Kind::Enum(Words::CombinePedals).parse("3"), Err(Error::Invalid));
    assert_eq!(Kind::Trigger.format(&Value::Trigger).unwrap(), "1");
    assert_eq!(Words::CombinePedals.word(2), "throttle_clutch");
}

#[test]
fn os_errors_map_to_what_they_mean() {
    assert_eq!(map_io_error(&IoError::NotFound), Error::NoWheel);
    assert_eq!(map_io_error(&IoError::Os(2)), Error::NoWheel);
    assert_eq!(map_io_error(&IoError::Os(6)), Error::NoWheel);
    assert_eq!(map_io_error(&IoError::Os(13)), Error::Permission);
    assert_eq!(map_io_error(&IoError::Os(34)), Error::OutOfRange);
    assert_eq!(map_io_error(&IoError::Os(99)), Error::Io(99));
}

#[test]
fn hex_parses_as_from_str_radix() {
    for t in ["c266", "C26E", "+ff", "0", "ffff", "FFFF", "10000", "", "+", "-1", "g", "12 "] {
        assert_eq!(parse_hex_u16_str(t), u16::from_str_radix(t, 16).ok(), "{t:?}");
    }
}

#[test]
fn splitting_at_a_character() {
    assert_eq!(find_char("a:b:c", ':'), Some(1));
    assert_eq!(find_char("abc", ':'), None);
    assert_eq!(before_char_str("C266.0002", '.'), "C266");
    assert_eq!(before_char_str("C266", '.'), "C266");
    assert_eq!(after_char_str("0003:046D", ':'), Some("046D"));
    assert_eq!(after_char_str("0003", ':'), None);
    assert_eq!(after_char_str("x:", ':'), Some(""));
}
