use protobuf_to_zod::parser::ast::Reserved;
use protobuf_to_zod::parser::error::{Location, ParseError};
use protobuf_to_zod::parser::lexer::tokenize;
use protobuf_to_zod::parser::token::Token;
use protobuf_to_zod::parser::{
    expect_token, parse_dotted_identifier, parse_field, parse_field_name, parse_map_field,
    parse_message, parse_method, parse_reserved, parse_service, parse_type,
};

#[test]
fn type_name_with_spaced_dots() {
    let toks = tokenize("google . rpc . Status)").unwrap();
    let mut pos = 0;
    assert_eq!(parse_type(&toks, &mut pos), Ok("google.rpc.Status".to_string()));
    assert_eq!(pos, 5);
    assert_eq!(toks[pos].token, Token::CloseParen);
}

#[test]
fn field_name_needs_equals() {
    let toks = tokenize("foo;").unwrap();
    let mut pos = 0;
    assert_eq!(
        parse_field_name(&toks, &mut pos),
        Err(ParseError::UnexpectedToken(
            "Expected Equals, found Semicolon".to_string(),
            Location::new(1, 4)
        ))
    );
    assert_eq!(pos, 1);

    let toks = tokenize("foo").unwrap();
    let mut pos = 0;
    assert_eq!(
        parse_field_name(&toks, &mut pos),
        Err(ParseError::UnexpectedEndOfInput(Location::new(1, 1)))
    );
    assert_eq!(pos, 1);
}

#[test]
fn missing_field_name_leaves_equals_unread() {
    let toks = tokenize("= 1").unwrap();
    let mut pos = 0;
    assert_eq!(
        parse_field_name(&toks, &mut pos),
        Err(ParseError::MissingIdentifier(
            "Expected field name".to_string(),
            Location::new(1, 1)
        ))
    );
    assert_eq!(pos, 0);
}

#[test]
fn map_field_number_must_be_an_integer() {
    let toks = tokenize("<string, int32> m = \"x\";").unwrap();
    let mut pos = 0;
    assert!(matches!(
        parse_map_field(&toks, &mut pos),
        Err(ParseError::UnexpectedToken(_, _))
    ));

    let toks = tokenize("map<string, int32> m = 1.5;").unwrap();
    let mut pos = 0;
    assert!(parse_field(&toks, &mut pos).is_err());

    let toks = tokenize("map<string, int32> m = 0x1F;").unwrap();
    let mut pos = 0;
    assert!(parse_field(&toks, &mut pos).is_ok());
    assert_eq!(pos, toks.len());
}

#[test]
fn method_stops_at_stray_token() {
    let toks = tokenize("rpc Get(Req) returns (Resp) rpc").unwrap();
    let mut pos = 0;
    assert_eq!(
        parse_method(&toks, &mut pos),
        Err(ParseError::UnexpectedToken(
            "Expected '{' or ';' after method definition, found Rpc".to_string(),
            Location::new(1, 29)
        ))
    );
    assert_eq!(pos, 9);
    assert_eq!(toks[pos].token, Token::Rpc);
}

#[test]
fn unclosed_message_reads_to_the_end() {
    let toks = tokenize("message A {\n  string x = 1;").unwrap();
    let mut pos = 0;
    assert_eq!(
        parse_message(&toks, &mut pos),
        Err(ParseError::UnexpectedEndOfInput(Location::new(1, 11)))
    );
    assert_eq!(pos, toks.len());
}

#[test]
fn reserved_keeps_items_read_before_an_error() {
    let toks = tokenize("reserved 11 to 9;").unwrap();
    let mut pos = 0;
    let mut items: Vec<Reserved> = Vec::new();
    assert_eq!(
        parse_reserved(&toks, &mut pos, &mut items),
        Err(ParseError::InvalidRange(11, 9, Location::new(1, 10)))
    );
    assert!(items.is_empty());
    assert_eq!(pos, 4);
    assert_eq!(toks[pos].token, Token::Semicolon);

    let toks = tokenize("reserved 2 x;").unwrap();
    let mut pos = 0;
    let mut items = vec![Reserved::Number(7)];
    assert_eq!(
        parse_reserved(&toks, &mut pos, &mut items),
        Err(ParseError::UnexpectedToken(
            "Unexpected token in reserved: Identifier(\"x\")".to_string(),
            Location::new(1, 12)
        ))
    );
    assert_eq!(items, vec![Reserved::Number(7), Reserved::Number(2)]);
    assert_eq!(pos, 3);
}

#[test]
fn dotted_identifier_error_leaves_input() {
    let toks = tokenize(".a = 1").unwrap();
    let mut pos = 0;
    assert_eq!(
        parse_dotted_identifier(&toks, &mut pos),
        Err(ParseError::UnexpectedToken(
            "Unexpected dot at the beginning of identifier".to_string(),
            Location::new(1, 1)
        ))
    );
    assert_eq!(pos, 0);
}

#[test]
fn expect_token_takes_a_mismatched_token() {
    let toks = tokenize("\n\n      { }").unwrap();
    let mut pos = 0;
    assert!(matches!(
        expect_token(&toks, &mut pos, Token::CloseBrace),
        Err(ParseError::UnexpectedToken(_, l)) if l == Location::new(3, 7)
    ));
    assert_eq!(pos, 1);
    assert_eq!(toks[pos].token, Token::CloseBrace);
}

#[test]
fn comments_before_rpc_and_service_are_skipped() {
    let toks = tokenize("// a\n/* b */ rpc Get(Req) returns (Resp);").unwrap();
    let mut pos = 0;
    let with_comments = parse_method(&toks, &mut pos).unwrap();
    assert_eq!(pos, toks.len());
    let mut pos = 2;
    assert_eq!(parse_method(&toks, &mut pos).unwrap(), with_comments);
    assert_eq!(with_comments.input_type, "Req");

    let toks = tokenize("// s\nservice S { }").unwrap();
    let mut pos = 0;
    let s = parse_service(&toks, &mut pos).unwrap();
    assert_eq!(s.name, "S");
    assert_eq!(pos, toks.len());
}

#[test]
fn two_part_field_name_is_joined_by_underscore() {
    let toks = tokenize("first second = 1").unwrap();
    let mut pos = 0;
    assert_eq!(parse_field_name(&toks, &mut pos), Ok("first_second".to_string()));
    assert_eq!(pos, 2);
}

#[test]
fn type_name_leading_dot_stops_there() {
    let toks = tokenize("// c\n.Foo)").unwrap();
    let mut pos = 0;
    assert_eq!(
        parse_type(&toks, &mut pos),
        Err(ParseError::UnexpectedToken(
            "Unexpected dot at the beginning of type name".to_string(),
            Location::new(2, 1)
        ))
    );
    assert_eq!(pos, 1);
}

#[test]
fn messages_use_debug_form_of_tokens() {
    let toks = tokenize("{ }").unwrap();
    let mut pos = 0;
    assert_eq!(
        expect_token(&toks, &mut pos, Token::CloseBrace),
        Err(ParseError::UnexpectedToken(
            "Expected CloseBrace, found OpenBrace".to_string(),
            Location::new(1, 1)
        ))
    );
    let toks = tokenize("\"a\\\"b\" 42 map").unwrap();
    assert_eq!(toks[0].debug_text(), "StringLiteral(\"a\\\"b\")");
    assert_eq!(toks[1].debug_text(), "DecimalIntLiteral(42)");
    assert_eq!(toks[2].debug_text(), "Map");
}

#[test]
fn field_name_ends_before_message_keyword() {
    let toks = tokenize("a message").unwrap();
    let mut pos = 0;
    assert_eq!(parse_field_name(&toks, &mut pos), Ok("a".to_string()));
    assert_eq!(pos, 1);
    assert_eq!(toks[pos].token, Token::Message);
}

#[test]
fn leading_tokens_are_taken_on_error() {
    let toks = tokenize("message 5 {").unwrap();
    let mut pos = 0;
    assert!(parse_message(&toks, &mut pos).is_err());
    assert_eq!(pos, 2);

    let toks = tokenize("syntax = \"proto3\" message").unwrap();
    let mut pos = 0;
    let mut file = protobuf_to_zod::parser::ast::ProtoFile::new();
    assert_eq!(
        protobuf_to_zod::parser::parse_syntax(&toks, &mut pos, &mut file),
        Err(ParseError::UnexpectedToken(
            "Expected ';', found Message".to_string(),
            Location::new(1, 19)
        ))
    );
    assert_eq!(pos, 3);
}
