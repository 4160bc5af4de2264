//! Extraction and classification behaviour.
use prefix::fields::{parse_fix_msg, Field, FixMsg};

fn field(tag: usize, value: &str) -> Field {
    Field { tag, value: String::from(value) }
}

#[test]
fn basic_parse_case() {
    let input = "8=4.4|1=test|55=EUR/USD|10=123";
    let result = parse_fix_msg(input);
    let expected = FixMsg::Full(vec![
        field(8, "4.4"),
        field(1, "test"),
        field(55, "EUR/USD"),
        field(10, "123"),
    ]);
    assert_eq!(result, expected);
}

#[test]
fn parse_case() {
    let input = "25=test|1=aaa|8=4.4|123=Capital|243:log[]efssdfkj39809|55=ETH-USD|101=55:05:22";
    let result = parse_fix_msg(input);
    let expected = FixMsg::Partial(vec![
        field(25, "test"),
        field(1, "aaa"),
        field(8, "4.4"),
        field(123, "Capital"),
        field(55, "ETH-USD"),
        field(101, "55:05:22"),
    ]);
    assert_eq!(result, expected);
}

#[test]
fn extraction_with_caret_delimiters() {
    let input = "8=4.4^1=test^55=EUR/USD";
    let result = parse_fix_msg(input);
    let expected = FixMsg::Partial(vec![
        field(8, "4.4"),
        field(1, "test"),
        field(55, "EUR/USD"),
    ]);
    assert_eq!(result, expected);
}

#[test]
fn classification_depends_on_begin_and_checksum() {
    // Both the begin-string marker and the checksum absent: Partial.
    let result = parse_fix_msg("55=EUR/USD|54=1");
    assert!(matches!(result, FixMsg::Partial(_)));
    // Both present: Full.
    let result = parse_fix_msg("8=FIX.4.4|55=EUR/USD|10=123");
    assert!(matches!(result, FixMsg::Full(_)));
    // Only the begin-string marker: Partial.
    let result = parse_fix_msg("8=FIX.4.4|55=EUR/USD");
    assert!(matches!(result, FixMsg::Partial(_)));
    // Only the checksum: Partial.
    let result = parse_fix_msg("55=EUR/USD|10=123");
    assert!(matches!(result, FixMsg::Partial(_)));
}

#[test]
fn no_digit_equals_pattern_gives_no_fields() {
    assert_eq!(parse_fix_msg("an ordinary log line"), FixMsg::NoFields);
    assert_eq!(parse_fix_msg(""), FixMsg::NoFields);
    assert_eq!(parse_fix_msg("numbers 123 456 but no fields"), FixMsg::NoFields);
    assert_eq!(parse_fix_msg("equals = but no digit before it"), FixMsg::NoFields);
}

#[test]
fn field_needs_value_character() {
    // A digit run and equals sign with no value character is not a field.
    assert_eq!(parse_fix_msg("55="), FixMsg::NoFields);
    assert_eq!(parse_fix_msg("55=|"), FixMsg::NoFields);
    // The value stops at the first delimiter.
    assert_eq!(
        parse_fix_msg("55=EUR/USD|rest"),
        FixMsg::Partial(vec![field(55, "EUR/USD")])
    );
}

#[test]
fn equals_signs_inside_values_are_kept() {
    assert_eq!(
        parse_fix_msg("1=a=b|2=c"),
        FixMsg::Partial(vec![field(1, "a=b"), field(2, "c")])
    );
}

#[test]
fn soh_is_a_field_delimiter() {
    let input = "8=FIX.4.4\x0135=D\x0110=123";
    let result = parse_fix_msg(input);
    let expected = FixMsg::Full(vec![
        field(8, "FIX.4.4"),
        field(35, "D"),
        field(10, "123"),
    ]);
    assert_eq!(result, expected);
}
