//! Zod schemas: one `z.object` per message and one `z.enum` per enum.
use vstd::prelude::*;
use vstd::string::*;

use crate::parser::ast::{
    lemma_messages_view, Enum, EnumValue, Field, FieldType, Message, ProtoFile, SpecEnum,
    SpecEnumValue, SpecField, SpecFieldType, SpecMessage, SpecProtoFile,
};

verus! {

/// The Zod type of a field type.
pub open spec fn zod_type(t: SpecFieldType) -> Seq<char> {
    match t {
        SpecFieldType::Double | SpecFieldType::Float => "z.number()"@,
        SpecFieldType::Int32 | SpecFieldType::Int64 | SpecFieldType::UInt32
        | SpecFieldType::UInt64 | SpecFieldType::SInt32 | SpecFieldType::SInt64
        | SpecFieldType::Fixed32 | SpecFieldType::Fixed64 | SpecFieldType::SFixed32
        | SpecFieldType::SFixed64 => "z.number().int()"@,
        SpecFieldType::Bool => "z.boolean()"@,
        SpecFieldType::String => "z.string()"@,
        SpecFieldType::Bytes => "z.instanceof(Uint8Array)"@,
        SpecFieldType::MessageOrEnum(name) => name,
        SpecFieldType::MapOf(_, _) => "z.record(z.string(), z.any())"@,
    }
}

/// The line of a field in an object schema: `  name: type,`
pub open spec fn field_schema(f: SpecField) -> Seq<char> {
    "  "@ + f.name + ": "@ + zod_type(f.typ) + ",\n"@
}

/// The lines of the given fields, in order.
pub open spec fn fields_schema(fs: Seq<SpecField>) -> Seq<char>
    decreases fs.len(),
{
    if fs.len() == 0 {
        Seq::empty()
    } else {
        fields_schema(fs.drop_last()) + field_schema(fs.last())
    }
}

/// The object schema of a message.
pub open spec fn message_schema(m: SpecMessage) -> Seq<char> {
    "const "@ + m.name + " = z.object({\n"@ + fields_schema(m.fields) + "});\n"@
}

/// The object schemas of the given messages, in order.
pub open spec fn messages_schema(ms: Seq<SpecMessage>) -> Seq<char>
    decreases ms.len(),
{
    if ms.len() == 0 {
        Seq::empty()
    } else {
        messages_schema(ms.drop_last()) + message_schema(ms.last())
    }
}

/// The line of an enum value in an enum schema: `  "NAME",`
pub open spec fn enum_value_schema(v: SpecEnumValue) -> Seq<char> {
    "  \""@ + v.name + "\",\n"@
}

/// The lines of the given enum values, in order.
pub open spec fn enum_values_schema(vs: Seq<SpecEnumValue>) -> Seq<char>
    decreases vs.len(),
{
    if vs.len() == 0 {
        Seq::empty()
    } else {
        enum_values_schema(vs.drop_last()) + enum_value_schema(vs.last())
    }
}

/// The enum schema of an enum.
pub open spec fn enum_schema(e: SpecEnum) -> Seq<char> {
    "const "@ + e.name + " = z.enum([\n"@ + enum_values_schema(e.values) + "]);\n"@
}

/// The enum schemas of the given enums, in order.
pub open spec fn enums_schema(es: Seq<SpecEnum>) -> Seq<char>
    decreases es.len(),
{
    if es.len() == 0 {
        Seq::empty()
    } else {
        enums_schema(es.drop_last()) + enum_schema(es.last())
    }
}

/// The schemas of a file: those of its messages, then those of its enums.
pub open spec fn zod_schemas(f: SpecProtoFile) -> Seq<char> {
    messages_schema(f.messages) + enums_schema(f.enums)
}

/// The schemas of all messages, then of all enums, of a file.
pub fn generate_zod_schemas(proto_file: &ProtoFile) -> (r: String)
    ensures
        r@ == zod_schemas(proto_file@),
{
    let mut output = String::new();
    let ghost ms = proto_file@.messages;
    proof {
        lemma_messages_view(proto_file.messages@);
    }
    let mut i: usize = 0;
    while i < proto_file.messages.len()
        invariant
            ms == proto_file@.messages,
            ms.len() == proto_file.messages@.len(),
            forall|j: int| 0 <= j < ms.len() ==> #[trigger] ms[j] == proto_file.messages@[j]@,
            i <= proto_file.messages.len(),
            output@ == messages_schema(ms.take(i as int)),
        decreases proto_file.messages.len() - i,
    {
        generate_message_schema(&mut output, &proto_file.messages[i]);
        proof {
            assert(ms.take(i + 1).drop_last() =~= ms.take(i as int));
        }
        i = i + 1;
    }
    assert(ms.take(ms.len() as int) =~= ms);
    let ghost es = proto_file@.enums;
    let ghost prefix = output@;
    let mut i: usize = 0;
    while i < proto_file.enums.len()
        invariant
            es == proto_file@.enums,
            es == proto_file.enums@.map_values(|e: Enum| e@),
            prefix == messages_schema(ms),
            i <= proto_file.enums.len(),
            output@ == prefix + enums_schema(es.take(i as int)),
        decreases proto_file.enums.len() - i,
    {
        generate_enum_schema(&mut output, &proto_file.enums[i]);
        proof {
            assert(es.take(i + 1).drop_last() =~= es.take(i as int));
            assert(output@ =~= prefix + enums_schema(es.take(i + 1)));
        }
        i = i + 1;
    }
    assert(es.take(es.len() as int) =~= es);
    output
}

/// Appends the object schema of a message.
pub fn generate_message_schema(output: &mut String, message: &Message)
    ensures
        final(output)@ == old(output)@ + message_schema(message@),
{
    let ghost start = output@;
    output.append("const ");
    output.append(message.name.as_str());
    output.append(" = z.object({\n");
    let ghost head = output@;
    let ghost fs = message@.fields;
    let mut i: usize = 0;
    while i < message.fields.len()
        invariant
            fs == message@.fields,
            fs == message.fields@.map_values(|f: Field| f@),
            i <= message.fields.len(),
            output@ == head + fields_schema(fs.take(i as int)),
        decreases message.fields.len() - i,
    {
        generate_field_schema(output, &message.fields[i]);
        proof {
            assert(fs.take(i + 1).drop_last() =~= fs.take(i as int));
            assert(output@ =~= head + fields_schema(fs.take(i + 1)));
        }
        i = i + 1;
    }
    assert(fs.take(fs.len() as int) =~= fs);
    output.append("});\n");
    assert(output@ =~= start + message_schema(message@));
}

/// The Zod type of a field type.
fn field_zod_type(t: &FieldType) -> (r: &str)
    ensures
        r@ == zod_type(t@),
{
    match t {
        FieldType::Double | FieldType::Float => "z.number()",
        FieldType::Int32 | FieldType::Int64 | FieldType::UInt32 | FieldType::UInt64
        | FieldType::SInt32 | FieldType::SInt64 | FieldType::Fixed32 | FieldType::Fixed64
        | FieldType::SFixed32 | FieldType::SFixed64 => "z.number().int()",
        FieldType::Bool => "z.boolean()",
        FieldType::String => "z.string()",
        FieldType::Bytes => "z.instanceof(Uint8Array)",
        FieldType::MessageOrEnum(name) => name.as_str(),
        FieldType::MapOf(_, _) => "z.record(z.string(), z.any())",
    }
}

/// Appends the line of a field in an object schema.
pub fn generate_field_schema(output: &mut String, field: &Field)
    ensures
        final(output)@ == old(output)@ + field_schema(field@),
{
    let ghost start = output@;
    output.append("  ");
    output.append(field.name.as_str());
    output.append(": ");
    output.append(field_zod_type(&field.typ));
    output.append(",\n");
    assert(output@ =~= start + field_schema(field@));
}

/// Appends the enum schema of an enum.
pub fn generate_enum_schema(output: &mut String, enum_def: &Enum)
    ensures
        final(output)@ == old(output)@ + enum_schema(enum_def@),
{
    let ghost start = output@;
    output.append("const ");
    output.append(enum_def.name.as_str());
    output.append(" = z.enum([\n");
    let ghost head = output@;
    let ghost vs = enum_def@.values;
    let mut i: usize = 0;
    while i < enum_def.values.len()
        invariant
            vs == enum_def@.values,
            vs == enum_def.values@.map_values(|v: EnumValue| v@),
            i <= enum_def.values.len(),
            output@ == head + enum_values_schema(vs.take(i as int)),
        decreases enum_def.values.len() - i,
    {
        output.append("  \"");
        output.append(enum_def.values[i].name.as_str());
        output.append("\",\n");
        proof {
            assert(vs.take(i + 1).drop_last() =~= vs.take(i as int));
            assert(output@ =~= head + enum_values_schema(vs.take(i + 1)));
        }
        i = i + 1;
    }
    assert(vs.take(vs.len() as int) =~= vs);
    output.append("]);\n");
    assert(output@ =~= start + enum_schema(enum_def@));
}

} // verus!
