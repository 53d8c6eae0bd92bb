use protobuf_to_zod::parser::ast::{FieldLabel, FieldType, NumberValue, Reserved, Syntax};
use protobuf_to_zod::parser::parse_proto_file;

#[test]
fn test_parse_proto_file() {
    let input = r#"
            syntax = "proto3";
            package example;

            message Person {
                string name = 1;
                int32 age = 2;
                repeated string hobbies = 3;
            }

            enum Gender {
                UNKNOWN = 0;
                MALE = 1;
                FEMALE = 2;
            }
        "#;

    let result = parse_proto_file(input);
    assert!(
        result.is_ok(),
        "Failed to parse proto file: {:?}",
        result.err()
    );

    let proto_file = result.unwrap();
    assert_eq!(proto_file.syntax, Syntax::Proto3);
    assert_eq!(proto_file.package, Some("example".to_string()));
    assert_eq!(proto_file.messages.len(), 1);
    assert_eq!(proto_file.enums.len(), 1);
}

#[test]
fn test_parse_reserved() {
    let input = r#"
            syntax = "proto3";
            message TestReserved {
                reserved 2, 15, 9 to 11;
                reserved "foo", "bar";
            }
        "#;

    let result = parse_proto_file(input);
    assert!(
        result.is_ok(),
        "Failed to parse proto file: {:?}",
        result.err()
    );

    let proto_file = result.unwrap();
    assert_eq!(proto_file.messages.len(), 1);

    let message = &proto_file.messages[0];
    assert_eq!(message.name, "TestReserved");
    assert_eq!(message.reserved.len(), 5);

    assert!(message.reserved.contains(&Reserved::Number(2)));
    assert!(message.reserved.contains(&Reserved::Number(15)));
    assert!(message.reserved.contains(&Reserved::Range(9, 11)));
    assert!(message
        .reserved
        .contains(&Reserved::FieldName("foo".to_string())));
    assert!(message
        .reserved
        .contains(&Reserved::FieldName("bar".to_string())));
}

#[test]
fn test_parse_field_types() {
    let _ = env_logger::builder().is_test(true).try_init();

    let input = r#"
            syntax = "proto3";
            package test;

            message TestFieldTypes {
                double double_field = 1;
                float float_field = 2;
                int32 int32_field = 3;
                int64 int64_field = 4;
                uint32 uint32_field = 5;
                uint64 uint64_field = 6;
                sint32 sint32_field = 7;
                sint64 sint64_field = 8;
                fixed32 fixed32_field = 9;
                fixed64 fixed64_field = 10;
                sfixed32 sfixed32_field = 11;
                sfixed64 sfixed64_field = 12;
                bool bool_field = 13;
                string string_field = 14;
                bytes bytes_field = 15;
                CustomMessage message_field = 16;
                map<string, int32> map_field = 17;
                repeated int32 repeated_field = 18;
            }

            message CustomMessage {
                string custom_field = 1;
            }
        "#;

    let result = parse_proto_file(input);
    assert!(
        result.is_ok(),
        "Failed to parse proto file: {:?}",
        result.err()
    );

    let proto_file = result.unwrap();
    assert_eq!(proto_file.syntax, Syntax::Proto3);
    assert_eq!(proto_file.package, Some("test".to_string()));
    assert_eq!(proto_file.messages.len(), 2);

    let test_field_types = &proto_file.messages[0];
    assert_eq!(test_field_types.name, "TestFieldTypes");
    assert_eq!(test_field_types.fields.len(), 18);

    let expected_types = vec![
        (
            FieldType::Double,
            "double_field",
            NumberValue::DecimalInt(1),
        ),
        (FieldType::Float, "float_field", NumberValue::DecimalInt(2)),
        (FieldType::Int32, "int32_field", NumberValue::DecimalInt(3)),
        (FieldType::Int64, "int64_field", NumberValue::DecimalInt(4)),
        (
            FieldType::UInt32,
            "uint32_field",
            NumberValue::DecimalInt(5),
        ),
        (
            FieldType::UInt64,
            "uint64_field",
            NumberValue::DecimalInt(6),
        ),
        (
            FieldType::SInt32,
            "sint32_field",
            NumberValue::DecimalInt(7),
        ),
        (
            FieldType::SInt64,
            "sint64_field",
            NumberValue::DecimalInt(8),
        ),
        (
            FieldType::Fixed32,
            "fixed32_field",
            NumberValue::DecimalInt(9),
        ),
        (
            FieldType::Fixed64,
            "fixed64_field",
            NumberValue::DecimalInt(10),
        ),
        (
            FieldType::SFixed32,
            "sfixed32_field",
            NumberValue::DecimalInt(11),
        ),
        (
            FieldType::SFixed64,
            "sfixed64_field",
            NumberValue::DecimalInt(12),
        ),
        (FieldType::Bool, "bool_field", NumberValue::DecimalInt(13)),
        (
            FieldType::String,
            "string_field",
            NumberValue::DecimalInt(14),
        ),
        (FieldType::Bytes, "bytes_field", NumberValue::DecimalInt(15)),
        (
            FieldType::MessageOrEnum("CustomMessage".to_string()),
            "message_field",
            NumberValue::DecimalInt(16),
        ),
        (
            FieldType::MapOf(Box::new(FieldType::String), Box::new(FieldType::Int32)),
            "map_field",
            NumberValue::DecimalInt(17),
        ),
        (
            FieldType::Int32,
            "repeated_field",
            NumberValue::DecimalInt(18),
        ),
    ];

    for (index, (expected_type, expected_name, expected_number)) in
        expected_types.iter().enumerate()
    {
        let field = &test_field_types.fields[index];
        assert_eq!(
            field.typ, *expected_type,
            "Field {} has unexpected type",
            expected_name
        );
        assert_eq!(
            field.name, *expected_name,
            "Field at index {} has unexpected name",
            index
        );
        assert_eq!(
            field.number, *expected_number,
            "Field {} has unexpected number",
            expected_name
        );

        if index == 17 {
            assert_eq!(
                field.label,
                FieldLabel::Repeated,
                "Field {} should be repeated",
                expected_name
            );
        } else {
            assert_eq!(
                field.label,
                FieldLabel::Optional,
                "Field {} should be optional",
                expected_name
            );
        }
    }

    let custom_message = &proto_file.messages[1];
    assert_eq!(custom_message.name, "CustomMessage");
    assert_eq!(custom_message.fields.len(), 1);

    let custom_field = &custom_message.fields[0];
    assert_eq!(custom_field.name, "custom_field");
    assert_eq!(custom_field.typ, FieldType::String);
    assert_eq!(custom_field.number, NumberValue::DecimalInt(1));
    assert_eq!(custom_field.label, FieldLabel::Optional);
}

#[test]
fn cloned_message_equals_original() {
    let input = r#"
        syntax = "proto3";
        message Outer {
            reserved 2, 5 to 7, "old";
            option deprecated = true;
            map<string, int32> counts = 1;
            oneof pick { string a = 3; int64 b = 4; }
            enum Kind { A = 0; B = 1 [deprecated = true]; }
            message Inner { bytes data = 1; }
        }
    "#;
    let file = parse_proto_file(input).unwrap();
    let copy = file.messages[0].clone();
    assert_eq!(copy, file.messages[0]);
}
