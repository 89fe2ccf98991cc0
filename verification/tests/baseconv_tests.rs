use toolbox::baseconv::{convert, format_from_decimal, parse_to_decimal, ConvertError};

#[test]
fn parses_each_supported_base() {
    assert_eq!(parse_to_decimal("0b1010", "binary"), Ok(10));
    assert_eq!(parse_to_decimal("1010", "bin"), Ok(10));
    assert_eq!(parse_to_decimal("42", "decimal"), Ok(42));
    assert_eq!(parse_to_decimal("-42", "dec"), Ok(-42));
    assert_eq!(parse_to_decimal("0xff", "hex"), Ok(255));
    assert_eq!(parse_to_decimal("FF", "hexadecimal"), Ok(255));
    assert_eq!(parse_to_decimal("0o17", "octal"), Ok(15));
    assert_eq!(parse_to_decimal("17", "oct"), Ok(15));
}

#[test]
fn parse_agrees_with_std_radix_parse() {
    for value in ["0", "7", "-8", "+123", "9223372036854775807", "-9223372036854775808"] {
        assert_eq!(
            parse_to_decimal(value, "decimal"),
            Ok(value.parse::<i64>().unwrap()),
        );
    }
    assert_eq!(
        parse_to_decimal("7fffffffffffffff", "hex"),
        Ok(i64::from_str_radix("7fffffffffffffff", 16).unwrap()),
    );
}

#[test]
fn parse_rejects_bad_input() {
    assert_eq!(parse_to_decimal("", "decimal"), Err(ConvertError::EmptyDigits));
    assert_eq!(parse_to_decimal("+", "decimal"), Err(ConvertError::EmptyDigits));
    assert_eq!(parse_to_decimal("0b", "binary"), Err(ConvertError::EmptyDigits));
    assert_eq!(parse_to_decimal("12x", "decimal"), Err(ConvertError::InvalidDigit));
    assert_eq!(parse_to_decimal("102", "binary"), Err(ConvertError::InvalidDigit));
    assert_eq!(
        parse_to_decimal("9223372036854775808", "decimal"),
        Err(ConvertError::OutOfRange),
    );
    assert_eq!(
        parse_to_decimal("-9223372036854775809", "decimal"),
        Err(ConvertError::OutOfRange),
    );
    assert_eq!(
        parse_to_decimal("5", "roman"),
        Err(ConvertError::UnsupportedSourceBase),
    );
}

#[test]
fn formats_each_supported_base() {
    assert_eq!(format_from_decimal(10, "binary").as_deref(), Ok("0b1010"));
    assert_eq!(format_from_decimal(255, "hex").as_deref(), Ok("0xff"));
    assert_eq!(format_from_decimal(15, "octal").as_deref(), Ok("0o17"));
    assert_eq!(format_from_decimal(42, "decimal").as_deref(), Ok("42"));
    assert_eq!(format_from_decimal(-42, "dec").as_deref(), Ok("-42"));
    assert_eq!(format_from_decimal(0, "binary").as_deref(), Ok("0b0"));
    assert_eq!(
        format_from_decimal(7, "roman"),
        Err(ConvertError::UnsupportedTargetBase),
    );
}

#[test]
fn formatting_matches_std_for_negatives() {
    for v in [-1i64, -5, i64::MIN, i64::MAX] {
        assert_eq!(format_from_decimal(v, "binary").unwrap(), format!("0b{:b}", v));
        assert_eq!(format_from_decimal(v, "hex").unwrap(), format!("0x{:x}", v));
        assert_eq!(format_from_decimal(v, "octal").unwrap(), format!("0o{:o}", v));
        assert_eq!(format_from_decimal(v, "decimal").unwrap(), v.to_string());
    }
}

#[test]
fn convert_reparses_between_bases() {
    assert_eq!(convert("0b1111", "binary", "hex").as_deref(), Ok("0xf"));
    assert_eq!(convert("255", "DECIMAL", "Hex").as_deref(), Ok("0xff"));
    assert_eq!(convert("0xff", "hex", "bin").as_deref(), Ok("0b11111111"));
}

#[test]
fn convert_text_to_base64_and_back() {
    assert_eq!(convert("hello", "text", "base64").as_deref(), Ok("aGVsbG8="));
    assert_eq!(convert("aGVsbG8=", "base64", "text").as_deref(), Ok("hello"));
    assert_eq!(convert("", "text", "base64").as_deref(), Ok(""));
}

#[test]
fn convert_rejects_bad_base64_and_bad_utf8() {
    assert_eq!(
        convert("not base64!!", "base64", "text"),
        Err(ConvertError::InvalidBase64),
    );
    // 0xff 0xfe decodes from base64 but is not UTF-8.
    let bad = base64::Engine::encode(&base64::prelude::BASE64_STANDARD, [0xffu8, 0xfe]);
    assert_eq!(convert(&bad, "base64", "text"), Err(ConvertError::InvalidUtf8));
}

#[test]
fn prefix_repetitions_are_all_stripped() {
    // trim-like stripping removes every leading repetition of the prefix.
    assert_eq!(parse_to_decimal("0b0b101", "binary"), Ok(5));
}
