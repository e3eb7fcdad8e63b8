use minttp::decimal::IntErrorKind;
use minttp::error::Error;

#[test]
fn error_descriptions() {
    assert_eq!(Error::InvalidHeader.description(), "Response parsing error: Invalid header");
    assert_eq!(
        Error::InvalidStatusLine.description(),
        "Response parsing error: Invalid status line"
    );
    assert_eq!(Error::IoError.description(), "stream did not contain valid UTF-8");
    assert_eq!(Error::InvalidHeader.to_string(), "Response parsing error: Invalid header");
}

#[test]
fn integer_error_descriptions_are_those_of_the_standard_parser() {
    let cases = [
        ("", IntErrorKind::Empty),
        ("x", IntErrorKind::InvalidDigit),
        ("65536", IntErrorKind::PosOverflow),
    ];
    for (text, kind) in cases {
        let std_error = text.parse::<u16>().unwrap_err();
        assert_eq!(kind.description(), std_error.to_string());
        assert_eq!(Error::ParseIntError(kind).description(), std_error.to_string());
        assert_eq!(Error::ParseIntError(kind).to_string(), std_error.to_string());
    }
}
