use protobuf_to_zod::parser::error::{Location, ParseError};
use protobuf_to_zod::parser::lexer::tokenize;
use protobuf_to_zod::parser::token::Token;

fn kinds(input: &str) -> Vec<Token> {
    tokenize(input).unwrap().iter().map(|t| t.token).collect()
}

#[test]
fn keywords_identifiers_and_punctuation() {
    assert_eq!(
        kinds("message Foo { string bar = 1; }"),
        vec![
            Token::Message,
            Token::Identifier,
            Token::OpenBrace,
            Token::StringType,
            Token::Identifier,
            Token::Equals,
            Token::DecimalIntLiteral(1),
            Token::Semicolon,
            Token::CloseBrace,
        ]
    );
    let toks = tokenize("map<a.b, c>[x](y)").unwrap();
    let ks: Vec<Token> = toks.iter().map(|t| t.token).collect();
    assert_eq!(
        ks,
        vec![
            Token::MapKeyword,
            Token::LessThan,
            Token::Identifier,
            Token::Dot,
            Token::Identifier,
            Token::Comma,
            Token::Identifier,
            Token::GreaterThan,
            Token::OpenBracket,
            Token::Identifier,
            Token::CloseBracket,
            Token::OpenParen,
            Token::Identifier,
            Token::CloseParen,
        ]
    );
    assert_eq!(toks[2].value, "a");
    assert_eq!(toks[3].value, ".");
}

#[test]
fn every_keyword() {
    assert_eq!(
        kinds("syntax package import public weak option message enum service rpc returns stream reserved to oneof repeated required map string"),
        vec![
            Token::Syntax,
            Token::Package,
            Token::Import,
            Token::Public,
            Token::Weak,
            Token::Option,
            Token::Message,
            Token::Enum,
            Token::Service,
            Token::Rpc,
            Token::Returns,
            Token::Stream,
            Token::Reserved,
            Token::To,
            Token::Oneof,
            Token::Repeated,
            Token::Required,
            Token::MapKeyword,
            Token::StringType,
        ]
    );
    let toks = tokenize("optional messages _x9").unwrap();
    assert!(toks.iter().all(|t| t.token == Token::Identifier));
    assert_eq!(toks[1].value, "messages");
    assert_eq!(toks[2].value, "_x9");
}

#[test]
fn numbers() {
    assert_eq!(
        kinds("42 0 -7 0x1F 0X10 017 1.5 2e10 3.0E-2 -1.25"),
        vec![
            Token::DecimalIntLiteral(42),
            Token::DecimalIntLiteral(0),
            Token::DecimalIntLiteral(-7),
            Token::HexIntLiteral(31),
            Token::HexIntLiteral(16),
            Token::OctalIntLiteral(15),
            Token::FloatLiteral,
            Token::FloatLiteral,
            Token::FloatLiteral,
            Token::FloatLiteral,
        ]
    );
    let toks = tokenize("3.0E-2 0x1F").unwrap();
    assert_eq!(toks[0].value, "3.0E-2");
    assert_eq!(toks[1].value, "0x1F");
    assert_eq!(kinds("9223372036854775807"), vec![Token::DecimalIntLiteral(i64::MAX)]);
    assert_eq!(kinds("-9223372036854775807"), vec![Token::DecimalIntLiteral(-i64::MAX)]);
}

#[test]
fn invalid_numbers() {
    assert_eq!(
        tokenize("x = 9223372036854775808;"),
        Err(ParseError::InvalidNumber(
            "9223372036854775808".to_string(),
            Location::new(1, 5)
        ))
    );
    assert_eq!(
        tokenize("0x"),
        Err(ParseError::InvalidNumber("0x".to_string(), Location::new(1, 1)))
    );
    assert_eq!(
        tokenize("  089"),
        Err(ParseError::InvalidNumber("089".to_string(), Location::new(1, 3)))
    );
    assert_eq!(
        tokenize("1e+"),
        Err(ParseError::InvalidNumber("1e+".to_string(), Location::new(1, 1)))
    );
}

#[test]
fn strings_and_escapes() {
    let toks = tokenize(r#""a\"b\n" 'it''s'"#).unwrap();
    assert_eq!(toks.len(), 3);
    assert_eq!(toks[0].token, Token::StringLiteral);
    assert_eq!(toks[0].value, "a\"b\n");
    assert_eq!(toks[1].value, "it");
    assert_eq!(toks[2].value, "s");
    assert_eq!(
        tokenize("\n  \"abc"),
        Err(ParseError::UnterminatedString(Location::new(2, 3)))
    );
}

#[test]
fn comments() {
    let toks = tokenize("// one\n/* two\n three */ x").unwrap();
    assert_eq!(toks.len(), 3);
    assert_eq!(toks[0].token, Token::Comment);
    assert_eq!(toks[0].value, " one");
    assert_eq!(toks[1].token, Token::Comment);
    assert_eq!(toks[1].value, " two\n three ");
    assert_eq!(toks[1].location, Location::new(2, 1));
    assert_eq!(toks[2].location, Location::new(3, 11));
    assert_eq!(
        tokenize("a /* open"),
        Err(ParseError::UnterminatedComment(Location::new(1, 3)))
    );
    assert_eq!(
        tokenize("a / b"),
        Err(ParseError::UnexpectedCharacter('/', Location::new(1, 3)))
    );
}

#[test]
fn unexpected_character() {
    assert_eq!(
        tokenize("message A {\n  @\n}"),
        Err(ParseError::UnexpectedCharacter('@', Location::new(2, 3)))
    );
}

#[test]
fn locations_follow_the_text() {
    let toks = tokenize("syntax = \"proto3\";\n\nmessage M {}").unwrap();
    let locs: Vec<(usize, usize)> = toks
        .iter()
        .map(|t| (t.location.line, t.location.column))
        .collect();
    assert_eq!(
        locs,
        vec![(1, 1), (1, 8), (1, 10), (1, 18), (3, 1), (3, 9), (3, 11), (3, 12)]
    );
    for w in locs.windows(2) {
        assert!(w[0] < w[1]);
    }
}

#[test]
fn empty_and_blank_input() {
    assert_eq!(tokenize("").unwrap().len(), 0);
    assert_eq!(tokenize(" \t\r\n").unwrap().len(), 0);
}
