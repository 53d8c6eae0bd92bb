//! What the schema of a field is, by the kind of its type.
use vstd::prelude::*;

use crate::generator::zod_generator::{
    enum_schema, enum_value_schema, enum_values_schema, enums_schema, field_schema,
    fields_schema, message_schema, messages_schema, zod_schemas,
};
use crate::parser::ast::{
    SpecEnum, SpecEnumValue, SpecField, SpecFieldType, SpecMessage, SpecProtoFile,
};

verus! {

/// Whether a field type is one of the ten integer types.
pub open spec fn is_integer_type(t: SpecFieldType) -> bool {
    ||| t is Int32
    ||| t is Int64
    ||| t is UInt32
    ||| t is UInt64
    ||| t is SInt32
    ||| t is SInt64
    ||| t is Fixed32
    ||| t is Fixed64
    ||| t is SFixed32
    ||| t is SFixed64
}

/// A field of an integer type (signed or unsigned, of any width and
/// encoding) gets a schema that accepts integers only.
pub proof fn law_integer_fields_are_integers(f: SpecField)
    requires
        is_integer_type(f.typ),
    ensures
        field_schema(f) == "  "@ + f.name + ": z.number().int(),\n"@,
{
    reveal_strlit("  ");
    reveal_strlit(": ");
    reveal_strlit(",\n");
    reveal_strlit("z.number().int()");
    reveal_strlit(": z.number().int(),\n");
    assert(field_schema(f) =~= "  "@ + f.name + ": z.number().int(),\n"@);
}

/// A field of a floating-point type (`double` or `float`) gets a schema
/// that accepts any number.
pub proof fn law_floating_fields_are_numbers(f: SpecField)
    requires
        f.typ is Double || f.typ is Float,
    ensures
        field_schema(f) == "  "@ + f.name + ": z.number(),\n"@,
{
    reveal_strlit("  ");
    reveal_strlit(": ");
    reveal_strlit(",\n");
    reveal_strlit("z.number()");
    reveal_strlit(": z.number(),\n");
    assert(field_schema(f) =~= "  "@ + f.name + ": z.number(),\n"@);
}

/// The schemas of the other kinds of fields: `bool` is a boolean, `string`
/// a string, `bytes` a `Uint8Array`, a map a record with string keys, and a
/// message or enum type the schema named like it.
pub proof fn law_other_field_schemas(f: SpecField)
    ensures
        f.typ is Bool ==> field_schema(f) == "  "@ + f.name + ": z.boolean(),\n"@,
        f.typ is String ==> field_schema(f) == "  "@ + f.name + ": z.string(),\n"@,
        f.typ is Bytes ==> field_schema(f) == "  "@ + f.name + ": z.instanceof(Uint8Array),\n"@,
        f.typ is MapOf ==> field_schema(f) == "  "@ + f.name
            + ": z.record(z.string(), z.any()),\n"@,
        f.typ matches SpecFieldType::MessageOrEnum(n) ==> field_schema(f) == "  "@ + f.name
            + ": "@ + n + ",\n"@,
{
    reveal_strlit("  ");
    reveal_strlit(": ");
    reveal_strlit(",\n");
    reveal_strlit("z.boolean()");
    reveal_strlit(": z.boolean(),\n");
    reveal_strlit("z.string()");
    reveal_strlit(": z.string(),\n");
    reveal_strlit("z.instanceof(Uint8Array)");
    reveal_strlit(": z.instanceof(Uint8Array),\n");
    reveal_strlit("z.record(z.string(), z.any())");
    reveal_strlit(": z.record(z.string(), z.any()),\n");
    if f.typ is Bool {
        assert(field_schema(f) =~= "  "@ + f.name + ": z.boolean(),\n"@);
    }
    if f.typ is String {
        assert(field_schema(f) =~= "  "@ + f.name + ": z.string(),\n"@);
    }
    if f.typ is Bytes {
        assert(field_schema(f) =~= "  "@ + f.name + ": z.instanceof(Uint8Array),\n"@);
    }
    if f.typ is MapOf {
        assert(field_schema(f) =~= "  "@ + f.name + ": z.record(z.string(), z.any()),\n"@);
    }
}

// ---------------------------------------------------------------------
// Order

/// The lines of two runs of fields are those of the first run, then those of
/// the second.
pub proof fn law_fields_schema_in_order(a: Seq<SpecField>, b: Seq<SpecField>)
    ensures
        fields_schema(a + b) == fields_schema(a) + fields_schema(b),
    decreases b.len(),
{
    if b.len() == 0 {
        assert(a + b =~= a);
        assert(fields_schema(a) + Seq::<char>::empty() =~= fields_schema(a));
    } else {
        law_fields_schema_in_order(a, b.drop_last());
        assert((a + b).drop_last() =~= a + b.drop_last());
        assert((a + b).last() == b.last());
        assert(fields_schema(a) + fields_schema(b.drop_last()) + field_schema(b.last()) =~= fields_schema(a) + (fields_schema(
            b.drop_last(),
        ) + field_schema(b.last())));
    }
}

/// One field alone gives its own text.
pub proof fn law_fields_schema_of_one(x: SpecField)
    ensures
        fields_schema(seq![x]) == field_schema(x),
{
    assert(seq![x].drop_last() =~= Seq::<SpecField>::empty());
    assert(seq![x].last() == x);
    assert(fields_schema(Seq::<SpecField>::empty()) == Seq::<char>::empty());
    assert(Seq::<char>::empty() + field_schema(x) =~= field_schema(x));
}

/// The schemas of two runs of messages are those of the first run, then
/// those of the second.
pub proof fn law_messages_schema_in_order(a: Seq<SpecMessage>, b: Seq<SpecMessage>)
    ensures
        messages_schema(a + b) == messages_schema(a) + messages_schema(b),
    decreases b.len(),
{
    if b.len() == 0 {
        assert(a + b =~= a);
        assert(messages_schema(a) + Seq::<char>::empty() =~= messages_schema(a));
    } else {
        law_messages_schema_in_order(a, b.drop_last());
        assert((a + b).drop_last() =~= a + b.drop_last());
        assert((a + b).last() == b.last());
        assert(messages_schema(a) + messages_schema(b.drop_last()) + message_schema(b.last()) =~= messages_schema(a) + (messages_schema(
            b.drop_last(),
        ) + message_schema(b.last())));
    }
}

/// One message alone gives its own text.
pub proof fn law_messages_schema_of_one(x: SpecMessage)
    ensures
        messages_schema(seq![x]) == message_schema(x),
{
    assert(seq![x].drop_last() =~= Seq::<SpecMessage>::empty());
    assert(seq![x].last() == x);
    assert(messages_schema(Seq::<SpecMessage>::empty()) == Seq::<char>::empty());
    assert(Seq::<char>::empty() + message_schema(x) =~= message_schema(x));
}

/// The lines of two runs of enum values are those of the first run, then
/// those of the second.
pub proof fn law_enum_values_schema_in_order(a: Seq<SpecEnumValue>, b: Seq<SpecEnumValue>)
    ensures
        enum_values_schema(a + b) == enum_values_schema(a) + enum_values_schema(b),
    decreases b.len(),
{
    if b.len() == 0 {
        assert(a + b =~= a);
        assert(enum_values_schema(a) + Seq::<char>::empty() =~= enum_values_schema(a));
    } else {
        law_enum_values_schema_in_order(a, b.drop_last());
        assert((a + b).drop_last() =~= a + b.drop_last());
        assert((a + b).last() == b.last());
        assert(enum_values_schema(a) + enum_values_schema(b.drop_last()) + enum_value_schema(b.last()) =~= enum_values_schema(a) + (enum_values_schema(
            b.drop_last(),
        ) + enum_value_schema(b.last())));
    }
}

/// One enum value alone gives its own text.
pub proof fn law_enum_values_schema_of_one(x: SpecEnumValue)
    ensures
        enum_values_schema(seq![x]) == enum_value_schema(x),
{
    assert(seq![x].drop_last() =~= Seq::<SpecEnumValue>::empty());
    assert(seq![x].last() == x);
    assert(enum_values_schema(Seq::<SpecEnumValue>::empty()) == Seq::<char>::empty());
    assert(Seq::<char>::empty() + enum_value_schema(x) =~= enum_value_schema(x));
}

/// The schemas of two runs of enums are those of the first run, then those
/// of the second.
pub proof fn law_enums_schema_in_order(a: Seq<SpecEnum>, b: Seq<SpecEnum>)
    ensures
        enums_schema(a + b) == enums_schema(a) + enums_schema(b),
    decreases b.len(),
{
    if b.len() == 0 {
        assert(a + b =~= a);
        assert(enums_schema(a) + Seq::<char>::empty() =~= enums_schema(a));
    } else {
        law_enums_schema_in_order(a, b.drop_last());
        assert((a + b).drop_last() =~= a + b.drop_last());
        assert((a + b).last() == b.last());
        assert(enums_schema(a) + enums_schema(b.drop_last()) + enum_schema(b.last()) =~= enums_schema(a) + (enums_schema(
            b.drop_last(),
        ) + enum_schema(b.last())));
    }
}

/// One enum alone gives its own text.
pub proof fn law_enums_schema_of_one(x: SpecEnum)
    ensures
        enums_schema(seq![x]) == enum_schema(x),
{
    assert(seq![x].drop_last() =~= Seq::<SpecEnum>::empty());
    assert(seq![x].last() == x);
    assert(enums_schema(Seq::<SpecEnum>::empty()) == Seq::<char>::empty());
    assert(Seq::<char>::empty() + enum_schema(x) =~= enum_schema(x));
}

/// The schemas of a file are one object schema per message, in order, and
/// then one enum schema per enum, in order: adding a message or an enum to
/// the end of the file adds its schema to the end of its part.
pub proof fn law_file_schemas(f: SpecProtoFile, m: SpecMessage, e: SpecEnum)
    ensures
        zod_schemas(SpecProtoFile { messages: f.messages.push(m), ..f }) == messages_schema(
            f.messages,
        ) + message_schema(m) + enums_schema(f.enums),
        zod_schemas(SpecProtoFile { enums: f.enums.push(e), ..f }) == zod_schemas(f)
            + enum_schema(e),
{
    assert(f.messages.push(m).drop_last() =~= f.messages);
    assert(f.enums.push(e).drop_last() =~= f.enums);
    assert(messages_schema(f.messages) + enums_schema(f.enums) + enum_schema(e) =~= messages_schema(
        f.messages,
    ) + (enums_schema(f.enums) + enum_schema(e)));
}

/// The object schema of a message opens with its name, holds the lines of
/// its fields in order, and closes; an enum schema likewise holds one
/// quoted line per value.
pub proof fn law_schema_shapes(m: SpecMessage, e: SpecEnum, f: SpecField, v: SpecEnumValue)
    ensures
        message_schema(m) == "const "@ + m.name + " = z.object({\n"@ + fields_schema(m.fields)
            + "});\n"@,
        enum_schema(e) == "const "@ + e.name + " = z.enum([\n"@ + enum_values_schema(e.values)
            + "]);\n"@,
        enum_value_schema(v) == "  \""@ + v.name + "\",\n"@,
{
}

} // verus!
