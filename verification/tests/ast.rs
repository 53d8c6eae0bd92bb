use protobuf_to_zod::parser::ast::{
    Enum, EnumValue, Field, FieldLabel, FieldType, Import, ImportKind, Message, NumberValue,
    ProtoFile, Syntax,
};

#[test]
fn test_create_proto_file() {
    let mut proto_file = ProtoFile::new();
    proto_file.syntax = Syntax::Proto3;
    proto_file.package = Some("example.package".to_string());

    let import = Import {
        path: "google/protobuf/any.proto".to_string(),
        kind: ImportKind::Default,
    };
    proto_file.imports.push(import);

    let mut message = Message::new("Person".to_string());
    message.fields.push(Field {
        name: "name".to_string(),
        number: NumberValue::DecimalInt(1),
        label: FieldLabel::Optional,
        typ: FieldType::MessageOrEnum(String::new()),
        options: Vec::new(),
    });

    message.fields.push(Field {
        name: "age".to_string(),
        number: NumberValue::DecimalInt(2),
        label: FieldLabel::Optional,
        typ: FieldType::String,
        options: Vec::new(),
    });
    proto_file.messages.push(message);

    let mut enum_def = Enum::new("Gender".to_string());
    enum_def.values.push(EnumValue {
        name: "UNKNOWN".to_string(),
        number: NumberValue::DecimalInt(0),
        options: Vec::new(),
    });
    enum_def.values.push(EnumValue {
        name: "MALE".to_string(),
        number: NumberValue::DecimalInt(1),
        options: Vec::new(),
    });
    enum_def.values.push(EnumValue {
        name: "FEMALE".to_string(),
        number: NumberValue::DecimalInt(2),
        options: Vec::new(),
    });
    enum_def.values.push(EnumValue {
        name: "OTHER".to_string(),
        number: NumberValue::DecimalInt(3),
        options: Vec::new(),
    });
    proto_file.enums.push(enum_def);

    assert_eq!(proto_file.syntax, Syntax::Proto3);
    assert_eq!(proto_file.package, Some("example.package".to_string()));
    assert_eq!(proto_file.imports.len(), 1);
    assert_eq!(proto_file.messages.len(), 1);
    assert_eq!(proto_file.enums.len(), 1);
    assert_eq!(proto_file.messages[0].fields.len(), 2);
    assert_eq!(proto_file.enums[0].values.len(), 4);
}
