use protobuf_to_zod::generator::zod_generator::generate_zod_schemas;
use protobuf_to_zod::parser::ast::{
    Enum, EnumValue, Field, FieldLabel, FieldType, Message, NumberValue, ProtoFile,
};
use protobuf_to_zod::parser::parse_proto_file;

fn field(name: &str, typ: FieldType) -> Field {
    Field {
        name: name.to_string(),
        number: NumberValue::DecimalInt(1),
        label: FieldLabel::Optional,
        typ,
        options: Vec::new(),
    }
}

#[test]
fn generates_object_and_enum_schemas() {
    let input = r#"
        syntax = "proto3";
        package example;

        message Person {
            string name = 1;
            int32 age = 2;
            repeated string hobbies = 3;
        }

        enum Gender {
            UNKNOWN = 0;
            MALE = 1;
            FEMALE = 2;
        }
    "#;
    let proto_file = parse_proto_file(input).unwrap();
    let out = generate_zod_schemas(&proto_file);
    let expected = "const Person = z.object({\n  name: z.string(),\n  age: z.number().int(),\n  hobbies: z.string(),\n});\nconst Gender = z.enum([\n  \"UNKNOWN\",\n  \"MALE\",\n  \"FEMALE\",\n]);\n";
    assert_eq!(out, expected);
}

#[test]
fn generates_every_field_type() {
    let mut m = Message::new("All".to_string());
    m.fields.push(field("a", FieldType::Double));
    m.fields.push(field("b", FieldType::Float));
    m.fields.push(field("c", FieldType::SFixed64));
    m.fields.push(field("d", FieldType::Bool));
    m.fields.push(field("e", FieldType::String));
    m.fields.push(field("f", FieldType::Bytes));
    m.fields.push(field("g", FieldType::MessageOrEnum("Other".to_string())));
    m.fields.push(field(
        "h",
        FieldType::MapOf(Box::new(FieldType::String), Box::new(FieldType::Int32)),
    ));
    let mut pf = ProtoFile::new();
    pf.messages.push(m);
    let out = generate_zod_schemas(&pf);
    let expected = "const All = z.object({\n  a: z.number(),\n  b: z.number(),\n  c: z.number().int(),\n  d: z.boolean(),\n  e: z.string(),\n  f: z.instanceof(Uint8Array),\n  g: Other,\n  h: z.record(z.string(), z.any()),\n});\n";
    assert_eq!(out, expected);
}

#[test]
fn messages_come_before_enums() {
    let mut pf = ProtoFile::new();
    let mut e = Enum::new("E".to_string());
    e.values.push(EnumValue {
        name: "A".to_string(),
        number: NumberValue::DecimalInt(0),
        options: Vec::new(),
    });
    pf.enums.push(e);
    pf.messages.push(Message::new("M".to_string()));
    let out = generate_zod_schemas(&pf);
    assert_eq!(out, "const M = z.object({\n});\nconst E = z.enum([\n  \"A\",\n]);\n");
}

#[test]
fn empty_file_gives_empty_output() {
    assert_eq!(generate_zod_schemas(&ProtoFile::new()), "");
}

#[test]
fn nested_messages_and_services_get_no_schema() {
    let input = r#"
        syntax = "proto3";
        message Outer {
            message Inner { int64 x = 1; }
            Inner inner = 1;
        }
        service S { rpc Get (Outer) returns (Outer); }
    "#;
    let pf = parse_proto_file(input).unwrap();
    assert_eq!(
        generate_zod_schemas(&pf),
        "const Outer = z.object({\n  inner: Inner,\n});\n"
    );
}
