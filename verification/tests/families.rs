use protobuf_to_zod::parser::ast::Reserved;
use protobuf_to_zod::parser::error::{Location, ParseError};
use protobuf_to_zod::parser::lexer::tokenize;
use protobuf_to_zod::parser::{
    parse_dotted_identifier, parse_field_name, parse_method, parse_proto_file, parse_reserved,
    parse_type,
};

#[test]
fn dotted_name_of_many_parts() {
    let toks = tokenize("a.b..c.d = 1").unwrap();
    let mut pos = 0;
    assert_eq!(parse_dotted_identifier(&toks, &mut pos), Ok("a.b.c.d".to_string()));
    assert_eq!(pos, 8);
}

#[test]
fn field_name_of_keyword_and_words() {
    let toks = tokenize("repeated a b_c = 1").unwrap();
    let mut pos = 0;
    assert_eq!(parse_field_name(&toks, &mut pos), Ok("repeated_a_b_c".to_string()));
    assert_eq!(pos, 3);
}

#[test]
fn type_name_errors() {
    let toks = tokenize("/* c */ )").unwrap();
    let mut pos = 0;
    assert_eq!(
        parse_type(&toks, &mut pos),
        Err(ParseError::UnexpectedEndOfInput(Location::new(0, 0)))
    );
    assert_eq!(pos, 1);

    let toks = tokenize("a . rpc // c\n ; )").unwrap();
    let mut pos = 0;
    assert_eq!(
        parse_type(&toks, &mut pos),
        Err(ParseError::UnexpectedToken(
            "Unexpected token in type name: Semicolon".to_string(),
            Location::new(2, 2)
        ))
    );
    assert_eq!(pos, 4);
}

#[test]
fn reserved_list_in_order() {
    let toks = tokenize("reserved 1, 3 to 5, \"x\", 9;").unwrap();
    let mut pos = 0;
    let mut items = vec![Reserved::Number(0)];
    assert_eq!(parse_reserved(&toks, &mut pos, &mut items), Ok(()));
    assert_eq!(
        items,
        vec![
            Reserved::Number(0),
            Reserved::Number(1),
            Reserved::Range(3, 5),
            Reserved::FieldName("x".to_string()),
            Reserved::Number(9)
        ]
    );
    assert_eq!(pos, toks.len());
}

#[test]
fn rpc_with_comments_everywhere() {
    let toks = tokenize(
        "/*a*/ rpc /*b*/ Get /*c*/ ( /*d*/ stream /*e*/ Req /*f*/ ) /*g*/ returns /*h*/ ( /*i*/ Resp /*j*/ ) /*k*/ ;",
    )
    .unwrap();
    let mut pos = 0;
    let m = parse_method(&toks, &mut pos).unwrap();
    assert_eq!(m.name, "Get");
    assert_eq!(m.input_type, "Req");
    assert_eq!(m.output_type, "Resp");
    assert!(m.client_streaming);
    assert!(!m.server_streaming);
    assert!(m.options.is_empty());
    assert_eq!(pos, toks.len());
}

#[test]
fn file_holds_definitions_in_order() {
    let f = parse_proto_file(
        "// top\nsyntax = \"proto3\";\nmessage A {}\n// c\nenum E { X = 0; }\nservice S {}\nmessage B { int32 x = 1; }\n",
    )
    .unwrap();
    assert_eq!(f.package, None);
    assert!(f.imports.is_empty());
    assert!(f.options.is_empty());
    let names: Vec<&str> = f.messages.iter().map(|m| m.name.as_str()).collect();
    assert_eq!(names, vec!["A", "B"]);
    assert_eq!(f.enums[0].name, "E");
    assert_eq!(f.services[0].name, "S");
    assert_eq!(f.messages[1].fields[0].name, "x");
}
