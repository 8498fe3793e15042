use gbdis::parse_hex_string;
use gbdis::ParseNumberError;

#[test]
fn decimal_numbers_parse_without_a_marker() {
    assert_eq!(Ok(150), parse_hex_string("150"));
    assert_eq!(Ok(0), parse_hex_string("0"));
    assert_eq!(Ok(42), parse_hex_string("+42"));
}

#[test]
fn the_marker_selects_hexadecimal() {
    assert_eq!(Ok(0x150), parse_hex_string("0x150"));
    assert_eq!(Ok(0x1F), parse_hex_string("0X1f"));
    assert_eq!(Ok(0xCB), parse_hex_string("0xCB"));
    assert_eq!(Ok(0), parse_hex_string("0x0"));
}

#[test]
fn empty_digits_are_reported() {
    assert_eq!(Err(ParseNumberError::Empty), parse_hex_string(""));
    assert_eq!(Err(ParseNumberError::Empty), parse_hex_string("0x"));
}

#[test]
fn stray_characters_are_invalid_digits() {
    assert_eq!(Err(ParseNumberError::InvalidDigit), parse_hex_string("+"));
    assert_eq!(Err(ParseNumberError::InvalidDigit), parse_hex_string("12g"));
    assert_eq!(Err(ParseNumberError::InvalidDigit), parse_hex_string("abc"));
    assert_eq!(Err(ParseNumberError::InvalidDigit), parse_hex_string("-7"));
    assert_eq!(Err(ParseNumberError::InvalidDigit), parse_hex_string("0xzz"));
}

#[test]
fn values_past_the_machine_word_overflow() {
    assert_eq!(
        Err(ParseNumberError::PosOverflow),
        parse_hex_string("123456789012345678901234567890")
    );
    assert_eq!(
        Err(ParseNumberError::PosOverflow),
        parse_hex_string("0xFFFFFFFFFFFFFFFFF")
    );
}
