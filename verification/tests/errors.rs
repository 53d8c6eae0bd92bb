use protobuf_to_zod::parser::error::{Location, ParseError};
use protobuf_to_zod::ConversionError;

#[test]
fn parse_error_messages() {
    assert_eq!(
        ParseError::UnexpectedEndOfInput(Location::new(2, 11)).message(),
        "Unexpected end of input at line 2, column 11"
    );
    assert_eq!(
        ParseError::InvalidRange(9, 3, Location::new(1, 41)).message(),
        "Invalid range 9 to 3 at line 1, column 41"
    );
    assert_eq!(
        ParseError::InvalidRange(-2, -5, Location::new(1, 1)).message(),
        "Invalid range -2 to -5 at line 1, column 1"
    );
    assert_eq!(
        ParseError::UnexpectedCharacter('@', Location::new(2, 3)).message(),
        "Unexpected character '@' at line 2, column 3"
    );
    assert_eq!(
        ParseError::UnexpectedToken("Expected '=', found x".to_string(), Location::new(10, 100))
            .message(),
        "Expected '=', found x at line 10, column 100"
    );
    assert_eq!(
        ParseError::InvalidSyntax("bad".to_string(), Location::new(0, 0)).message(),
        "bad at line 0, column 0"
    );
    assert_eq!(
        ParseError::MissingIdentifier("Expected field name".to_string(), Location::new(3, 4))
            .message(),
        "Expected field name at line 3, column 4"
    );
    assert_eq!(
        ParseError::UnterminatedString(Location::new(1, 2)).message(),
        "Unterminated string literal at line 1, column 2"
    );
    assert_eq!(
        ParseError::UnterminatedComment(Location::new(1, 2)).message(),
        "Unterminated comment at line 1, column 2"
    );
    assert_eq!(
        ParseError::InvalidNumber("0x".to_string(), Location::new(7, 8)).message(),
        "Invalid number 0x at line 7, column 8"
    );
    assert_eq!(
        ParseError::InvalidRange(i32::MIN, i32::MAX, Location::new(1, 1)).message(),
        "Invalid range -2147483648 to 2147483647 at line 1, column 1"
    );
}

#[test]
fn conversion_error_messages() {
    assert_eq!(
        ConversionError::ParseError("x".to_string()).message(),
        "Parse error: x"
    );
    assert_eq!(
        ConversionError::GenerationError("y".to_string()).message(),
        "Generation error: y"
    );
    let err: ConversionError =
        std::io::Error::new(std::io::ErrorKind::Other, "boom").into();
    assert!(matches!(err, ConversionError::FileReadError(_)));
    assert_eq!(err.message(), "File read error: boom");
}
