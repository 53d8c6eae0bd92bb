use protobuf_to_zod::parser::ast::{
    EnumValueOptionValue, FieldLabel, FieldType, ImportKind, NumberValue, OptionValue, Reserved,
    Syntax,
};
use protobuf_to_zod::parser::error::{Location, ParseError};
use protobuf_to_zod::parser::lexer::tokenize;
use protobuf_to_zod::parser::token::Token;
use protobuf_to_zod::parser::{
    expect_identifier, expect_token, parse_dotted_identifier, parse_field_name, parse_field_type,
    parse_identifier, parse_map_field, parse_proto_file, parse_reserved, parse_type,
    skip_comments_and_whitespace,
};

#[test]
fn field_names() {
    let toks = tokenize("message foo = 1").unwrap();
    let mut pos = 0;
    assert_eq!(parse_field_name(&toks, &mut pos), Ok("message_foo".to_string()));
    assert_eq!(pos, 2);

    let toks = tokenize("first second = 1").unwrap();
    let mut pos = 0;
    assert_eq!(parse_field_name(&toks, &mut pos), Ok("first_second".to_string()));

    let toks = tokenize("snake_case_name = 1").unwrap();
    let mut pos = 0;
    assert_eq!(parse_field_name(&toks, &mut pos), Ok("snake_case_name".to_string()));
    assert_eq!(pos, 1);

    let toks = tokenize("x = 1").unwrap();
    let mut pos = 1;
    assert_eq!(
        parse_field_name(&toks, &mut pos),
        Err(ParseError::MissingIdentifier(
            "Expected field name".to_string(),
            Location::new(1, 3)
        ))
    );
}

#[test]
fn type_names() {
    let toks = tokenize("Foo)").unwrap();
    let mut pos = 0;
    assert_eq!(parse_type(&toks, &mut pos), Ok("Foo".to_string()));
    assert_eq!(pos, 1);

    // Each dot between two parts gives one dot in the name.
    let toks = tokenize("google.rpc.Status)").unwrap();
    let mut pos = 0;
    assert_eq!(parse_type(&toks, &mut pos), Ok("google.rpc.Status".to_string()));

    let toks = tokenize(".Foo)").unwrap();
    let mut pos = 0;
    assert_eq!(
        parse_type(&toks, &mut pos),
        Err(ParseError::UnexpectedToken(
            "Unexpected dot at the beginning of type name".to_string(),
            Location::new(1, 1)
        ))
    );

    let toks = tokenize(")").unwrap();
    let mut pos = 0;
    assert_eq!(
        parse_type(&toks, &mut pos),
        Err(ParseError::UnexpectedEndOfInput(Location::new(0, 0)))
    );

    let toks = tokenize("Foo;").unwrap();
    let mut pos = 0;
    assert_eq!(
        parse_type(&toks, &mut pos),
        Err(ParseError::UnexpectedToken(
            "Unexpected token in type name: Semicolon".to_string(),
            Location::new(1, 4)
        ))
    );
}

#[test]
fn dotted_identifiers() {
    let toks = tokenize("a.b.c = 1").unwrap();
    let mut pos = 0;
    assert_eq!(parse_dotted_identifier(&toks, &mut pos), Ok("a.b.c".to_string()));
    assert_eq!(pos, 5);

    let toks = tokenize(".a").unwrap();
    let mut pos = 0;
    assert_eq!(
        parse_dotted_identifier(&toks, &mut pos),
        Err(ParseError::UnexpectedToken(
            "Unexpected dot at the beginning of identifier".to_string(),
            Location::new(1, 1)
        ))
    );

    let toks = tokenize(" = 1").unwrap();
    let mut pos = 0;
    assert_eq!(
        parse_dotted_identifier(&toks, &mut pos),
        Err(ParseError::UnexpectedEndOfInput(Location::new(1, 2)))
    );
}

#[test]
fn field_types() {
    let names = [
        ("double", FieldType::Double),
        ("float", FieldType::Float),
        ("int32", FieldType::Int32),
        ("int64", FieldType::Int64),
        ("uint32", FieldType::UInt32),
        ("uint64", FieldType::UInt64),
        ("sint32", FieldType::SInt32),
        ("sint64", FieldType::SInt64),
        ("fixed32", FieldType::Fixed32),
        ("fixed64", FieldType::Fixed64),
        ("sfixed32", FieldType::SFixed32),
        ("sfixed64", FieldType::SFixed64),
        ("bool", FieldType::Bool),
        ("bytes", FieldType::Bytes),
        ("string", FieldType::String),
        ("Thing", FieldType::MessageOrEnum("Thing".to_string())),
    ];
    for (name, typ) in names {
        let toks = tokenize(name).unwrap();
        assert_eq!(parse_field_type(&toks[0]), Ok(typ));
    }
    let toks = tokenize("=").unwrap();
    assert_eq!(
        parse_field_type(&toks[0]),
        Err(ParseError::UnexpectedToken(
            "Expected field type, found Equals".to_string(),
            Location::new(1, 1)
        ))
    );
}

#[test]
fn map_fields() {
    let toks = tokenize("<string, Foo> counts = 1;").unwrap();
    let mut pos = 0;
    assert_eq!(
        parse_map_field(&toks, &mut pos),
        Ok((
            FieldType::MapOf(
                Box::new(FieldType::String),
                Box::new(FieldType::MessageOrEnum("Foo".to_string()))
            ),
            "counts".to_string()
        ))
    );
    // `=` and the number are checked and left unread.
    assert_eq!(pos, 6);
    let toks = tokenize("<string; Foo> counts").unwrap();
    let mut pos = 0;
    assert_eq!(
        parse_map_field(&toks, &mut pos),
        Err(ParseError::UnexpectedToken(
            "Expected Comma, found Semicolon".to_string(),
            Location::new(1, 8)
        ))
    );
}

#[test]
fn reserved_statements() {
    let toks = tokenize("reserved 1, \"x\", 3 to 4;").unwrap();
    let mut pos = 0;
    let mut items = vec![Reserved::Number(0)];
    assert_eq!(parse_reserved(&toks, &mut pos, &mut items), Ok(()));
    assert_eq!(
        items,
        vec![
            Reserved::Number(0),
            Reserved::Number(1),
            Reserved::FieldName("x".to_string()),
            Reserved::Range(3, 4),
        ]
    );
    assert_eq!(pos, toks.len());

    let toks = tokenize("reserved -2 to -5;").unwrap();
    let mut pos = 0;
    let mut items = Vec::new();
    assert_eq!(
        parse_reserved(&toks, &mut pos, &mut items),
        Err(ParseError::InvalidRange(-2, -5, Location::new(1, 10)))
    );

    // A number that does not fit in an i32 is an invalid number.
    let toks = tokenize("reserved 4294967297;").unwrap();
    let mut pos = 0;
    let mut items = Vec::new();
    assert_eq!(
        parse_reserved(&toks, &mut pos, &mut items),
        Err(ParseError::InvalidNumber("4294967297".to_string(), Location::new(1, 10)))
    );
    assert!(items.is_empty());
    assert_eq!(pos, 2);
    let toks = tokenize("reserved 1 to 2147483648;").unwrap();
    let mut pos = 0;
    let mut items = Vec::new();
    assert_eq!(
        parse_reserved(&toks, &mut pos, &mut items),
        Err(ParseError::InvalidNumber("2147483648".to_string(), Location::new(1, 15)))
    );
    assert_eq!(pos, 4);
    let toks = tokenize("reserved 2147483647;").unwrap();
    let mut pos = 0;
    let mut items = Vec::new();
    assert_eq!(parse_reserved(&toks, &mut pos, &mut items), Ok(()));
    assert_eq!(items, vec![Reserved::Number(2147483647)]);

    let toks = tokenize("reserved 1").unwrap();
    let mut pos = 0;
    let mut items = Vec::new();
    assert_eq!(
        parse_reserved(&toks, &mut pos, &mut items),
        Err(ParseError::UnexpectedEndOfInput(Location::new(1, 10)))
    );

    let toks = tokenize("reserved 1 to x;").unwrap();
    let mut pos = 0;
    let mut items = Vec::new();
    assert_eq!(
        parse_reserved(&toks, &mut pos, &mut items),
        Err(ParseError::UnexpectedEndOfInput(Location::new(1, 1)))
    );

    let toks = tokenize("reserved = ;").unwrap();
    let mut pos = 0;
    let mut items = Vec::new();
    assert_eq!(
        parse_reserved(&toks, &mut pos, &mut items),
        Err(ParseError::UnexpectedToken(
            "Unexpected token in reserved: Equals".to_string(),
            Location::new(1, 10)
        ))
    );
}

#[test]
fn single_tokens() {
    let toks = tokenize("// c\nmessage Foo").unwrap();
    let mut pos = 0;
    skip_comments_and_whitespace(&toks, &mut pos);
    assert_eq!(pos, 1);
    assert_eq!(expect_token(&toks, &mut pos, Token::Message).map(|t| t.token), Ok(Token::Message));
    assert_eq!(expect_identifier(&toks, &mut pos), Ok("Foo".to_string()));
    assert_eq!(
        expect_identifier(&toks, &mut pos),
        Err(ParseError::UnexpectedEndOfInput(Location::new(0, 0)))
    );

    let toks = tokenize("message").unwrap();
    let mut pos = 0;
    assert_eq!(
        expect_token(&toks, &mut pos, Token::Oneof),
        Err(ParseError::UnexpectedToken(
            "Expected Oneof, found Message".to_string(),
            Location::new(1, 1)
        ))
    );
    // The mismatched token is taken.
    assert_eq!(pos, 1);
    let mut pos = 0;
    assert_eq!(
        parse_identifier(&toks, &mut pos),
        Err(ParseError::UnexpectedToken(
            "Expected identifier, found Message".to_string(),
            Location::new(1, 1)
        ))
    );
    assert_eq!(pos, 1);
    let mut pos = 0;
    assert_eq!(
        expect_identifier(&toks, &mut pos),
        Err(ParseError::UnexpectedToken(
            "Expected identifier, found Message".to_string(),
            Location::new(1, 1)
        ))
    );
    assert_eq!(pos, 1);
}

#[test]
fn parses_a_full_file() {
    let input = r#"
syntax = "proto2";
package a.b.c;
import public "x.proto";
import weak "y.proto";
import "z.proto";
option java_package = "com.example";
option optimize_for = SPEED;

message Outer {
  // a comment
  message Inner { required int64 id = 1; }
  enum Kind {
    A = 0;
    B = 0x1 [deprecated = true, foo = "bar"];
    option allow_alias = true;
  }
  oneof choice {
    string s = 2;
    Inner i = 3;
  }
  option deprecated = true;
  map<string, Inner> m = 4;
  reserved 5, 6 to 8;
}

service Svc {
  option deprecated = true;
  rpc Get (stream Outer) returns (stream Outer) {
    option idempotency_level = NO_SIDE_EFFECTS;
  }
  rpc Put (Outer) returns (Outer);
}
"#;
    let pf = parse_proto_file(input).unwrap();
    assert_eq!(pf.syntax, Syntax::Proto2);
    assert_eq!(pf.package, Some("a.b.c".to_string()));
    let imports: Vec<(String, ImportKind)> =
        pf.imports.iter().map(|i| (i.path.clone(), i.kind)).collect();
    assert_eq!(
        imports,
        vec![
            ("x.proto".to_string(), ImportKind::Public),
            ("y.proto".to_string(), ImportKind::Weak),
            ("z.proto".to_string(), ImportKind::Default),
        ]
    );
    assert_eq!(pf.options.len(), 2);
    assert_eq!(pf.options[0].name, "java_package");
    assert_eq!(pf.options[0].value, OptionValue::String("com.example".to_string()));
    assert_eq!(pf.options[1].value, OptionValue::Identifier("SPEED".to_string()));

    assert_eq!(pf.messages.len(), 1);
    let outer = &pf.messages[0];
    assert_eq!(outer.name, "Outer");
    assert_eq!(outer.nested_messages.len(), 1);
    let inner = &outer.nested_messages[0];
    assert_eq!(inner.fields[0].name, "id");
    assert_eq!(inner.fields[0].label, FieldLabel::Required);
    assert_eq!(inner.fields[0].typ, FieldType::Int64);

    let kind = &outer.nested_enums[0];
    assert_eq!(kind.name, "Kind");
    assert_eq!(kind.values.len(), 2);
    assert_eq!(kind.values[1].number, NumberValue::Hex(1));
    assert_eq!(kind.values[1].options.len(), 2);
    assert_eq!(
        kind.values[1].options[0].value,
        EnumValueOptionValue::Identifier("true".to_string())
    );
    assert_eq!(
        kind.values[1].options[1].value,
        EnumValueOptionValue::String("bar".to_string())
    );
    assert_eq!(kind.options[0].name, "allow_alias");

    assert_eq!(outer.oneofs.len(), 1);
    assert_eq!(outer.oneofs[0].name, "choice");
    assert_eq!(outer.oneofs[0].fields.len(), 2);
    assert_eq!(
        outer.oneofs[0].fields[1].typ,
        FieldType::MessageOrEnum("Inner".to_string())
    );
    assert_eq!(outer.options[0].name, "deprecated");
    assert_eq!(outer.fields.len(), 1);
    assert_eq!(
        outer.fields[0].typ,
        FieldType::MapOf(
            Box::new(FieldType::String),
            Box::new(FieldType::MessageOrEnum("Inner".to_string()))
        )
    );
    assert_eq!(outer.reserved, vec![Reserved::Number(5), Reserved::Range(6, 8)]);

    assert_eq!(pf.services.len(), 1);
    let svc = &pf.services[0];
    assert_eq!(svc.name, "Svc");
    assert_eq!(svc.options.len(), 1);
    assert_eq!(svc.methods.len(), 2);
    let get = &svc.methods[0];
    assert_eq!(get.name, "Get");
    assert_eq!(get.input_type, "Outer");
    assert_eq!(get.output_type, "Outer");
    assert!(get.client_streaming && get.server_streaming);
    assert_eq!(
        get.options[0].value,
        OptionValue::Identifier("NO_SIDE_EFFECTS".to_string())
    );
    let put = &svc.methods[1];
    assert!(!put.client_streaming && !put.server_streaming);
    assert!(put.options.is_empty());
}

#[test]
fn file_errors() {
    assert_eq!(
        parse_proto_file("message A {}"),
        Err(ParseError::UnexpectedToken(
            "Expected 'syntax', found Message".to_string(),
            Location::new(1, 1)
        ))
    );
    assert_eq!(
        parse_proto_file("syntax = \"proto4\";"),
        Err(ParseError::InvalidSyntax(
            "Expected \"proto2\" or \"proto3\"".to_string(),
            Location::new(1, 10)
        ))
    );
    assert_eq!(
        parse_proto_file("syntax = \"proto3\"; foo"),
        Err(ParseError::UnexpectedToken("Identifier(\"foo\")".to_string(), Location::new(1, 20)))
    );
    assert_eq!(
        parse_proto_file("syntax = \"proto3\";\nmessage A {\n  int32 x = 1;\n"),
        Err(ParseError::UnexpectedEndOfInput(Location::new(2, 11)))
    );
    assert_eq!(
        parse_proto_file("syntax = \"proto3\";\nenum E { // c\n A = 0; }"),
        Err(ParseError::UnexpectedToken(
            "Unexpected token in enum body: Comment(\" c\")".to_string(),
            Location::new(2, 10)
        ))
    );
    assert_eq!(
        parse_proto_file("syntax = \"proto3\"; message M { reserved 9 to 3; }"),
        Err(ParseError::InvalidRange(9, 3, Location::new(1, 41)))
    );
    assert_eq!(
        parse_proto_file("syntax = \"proto3\"; message M { int32 = 1; }"),
        Err(ParseError::MissingIdentifier(
            "Expected field name".to_string(),
            Location::new(1, 38)
        ))
    );
    assert_eq!(
        parse_proto_file("syntax = \"proto3\"; package a.;"),
        Err(ParseError::UnexpectedToken(
            "Expected identifier after dot in package name".to_string(),
            Location::new(1, 20)
        ))
    );
    assert_eq!(
        parse_proto_file("syntax = \"proto3\"; import foo;"),
        Err(ParseError::UnexpectedToken(
            "Expected string literal or identifier for import path, found Identifier(\"foo\")".to_string(),
            Location::new(1, 27)
        ))
    );
    assert_eq!(
        parse_proto_file("syntax = \"proto3\"; service S { rpc A (B) returns (C) x }"),
        Err(ParseError::UnexpectedToken(
            "Expected '{' or ';' after method definition, found Identifier(\"x\")".to_string(),
            Location::new(1, 54)
        ))
    );
    assert_eq!(
        parse_proto_file("syntax = \"proto3\" message"),
        Err(ParseError::UnexpectedToken(
            "Expected ';', found Message".to_string(),
            Location::new(1, 19)
        ))
    );
    assert_eq!(
        parse_proto_file("syntax = \"proto3\"; message M { int32 x = y; }"),
        Err(ParseError::UnexpectedToken(
            "Expected field number, found Identifier(\"y\")".to_string(),
            Location::new(1, 42)
        ))
    );
}

#[test]
fn identifiers_never_spell_keywords() {
    let toks = tokenize("message messages map_ string_value").unwrap();
    assert_eq!(toks[0].token, Token::Message);
    for t in &toks[1..] {
        assert_eq!(t.token, Token::Identifier);
        assert!(!t.value.is_empty());
    }
}

#[test]
fn parsed_ranges_are_ordered() {
    let pf = parse_proto_file(
        "syntax = \"proto3\"; message A { reserved 1 to 1, 2 to 9; message B { reserved 3 to 4; } }",
    )
    .unwrap();
    for r in pf.messages[0].reserved.iter().chain(pf.messages[0].nested_messages[0].reserved.iter()) {
        if let Reserved::Range(a, b) = r {
            assert!(a <= b);
        }
    }
    assert_eq!(pf.messages[0].reserved, vec![Reserved::Range(1, 1), Reserved::Range(2, 9)]);
}

#[test]
fn later_package_declaration_wins() {
    let pf = parse_proto_file("syntax = \"proto3\"; package a; // x\n package b.c;").unwrap();
    assert_eq!(pf.package, Some("b.c".to_string()));
}

#[test]
fn oneof_and_rpc_options_must_be_closed() {
    let pf = parse_proto_file("syntax = \"proto3\"; message M { oneof o { int32 a = 1;");
    assert_eq!(pf, Err(ParseError::UnexpectedEndOfInput(Location::new(0, 0))));
    let pf = parse_proto_file(
        "syntax = \"proto3\"; service S { rpc A(B) returns (C) { option x = 1;",
    );
    assert_eq!(pf, Err(ParseError::UnexpectedEndOfInput(Location::new(0, 0))));
}
