//! What the parser gives for whole families of inputs: names of any number
//! of parts, the errors of type names, and `reserved` lists of any length.
use vstd::prelude::*;

use crate::parser::ast::{
    empty_enum, empty_file, empty_message, SpecEnum, SpecField, SpecMessage, SpecOneOf, SpecProtoFile,
    SpecMethod, SpecNumberValue, SpecProtoOption, SpecReserved, SpecService, Syntax, SpecEnumValue,
    SpecOptionValue, SpecEnumValueOption, SpecEnumValueOptionValue, SpecFieldType,
};
use crate::parser::error::{loc0, SpecParseError};
use crate::parser::grammar::{
    eof, found, fits_i32, kind_at, lemma_skip_comments, skip_comments, spec_dotted_identifier,
    spec_dotted_loop, spec_field_name, spec_field_name_loop, spec_reserved, spec_reserved_loop,
    spec_type, spec_type_loop, SpecFail, spec_message, spec_message_body, spec_field, spec_oneof,
    spec_enum, spec_option, spec_file, spec_syntax, spec_packages, spec_imports,
    spec_file_options, spec_top_level, spec_service, spec_method, spec_method_rest, spec_stream,
    spec_identifier, expect_at, spec_service_body, spec_enum_value, spec_method_options,
    spec_option_value, spec_enum_value_option, spec_field_type, spec_enum_body, spec_enum_option,
    spec_oneof_body,
};
use crate::parser::token::{SpecToken, Token};

verus! {

// ---------------------------------------------------------------------
// Joining parts

/// The parts joined with one `sep` between each two.
pub open spec fn joined(parts: Seq<Seq<char>>, sep: char) -> Seq<char>
    decreases parts.len(),
{
    if parts.len() == 0 {
        Seq::empty()
    } else if parts.len() == 1 {
        parts[0]
    } else {
        joined(parts.drop_last(), sep).push(sep) + parts.last()
    }
}

proof fn lemma_joined_push(parts: Seq<Seq<char>>, sep: char, x: Seq<char>)
    requires
        parts.len() >= 1,
    ensures
        joined(parts.push(x), sep) == joined(parts, sep).push(sep) + x,
{
    assert(parts.push(x).drop_last() =~= parts);
}

// ---------------------------------------------------------------------
// Dotted names

/// The texts of the identifiers among `ts`, in order.
pub open spec fn identifier_texts(ts: Seq<SpecToken>) -> Seq<Seq<char>>
    decreases ts.len(),
{
    if ts.len() == 0 {
        Seq::empty()
    } else if ts.last().token == Token::Identifier {
        identifier_texts(ts.drop_last()).push(ts.last().value)
    } else {
        identifier_texts(ts.drop_last())
    }
}

proof fn lemma_dotted_run(t: Seq<SpecToken>, p: int, q: int, i: int, name: Seq<char>)
    requires
        0 <= p < i <= q <= t.len(),
        forall|k: int| p <= k < q ==> #[trigger] t[k].token == Token::Identifier || t[k].token
            == Token::Dot,
        q < t.len() ==> t[q].token != Token::Identifier && t[q].token != Token::Dot,
        identifier_texts(t.subrange(p, i)).len() >= 1,
        name == joined(identifier_texts(t.subrange(p, i)), '.'),
    ensures
        spec_dotted_loop(t, i, Some(name)) == Ok::<_, SpecFail>(
            (Some(joined(identifier_texts(t.subrange(p, q)), '.')), q),
        ),
    decreases q - i,
{
    if i < q {
        let s = t.subrange(p, i);
        assert(t.subrange(p, i + 1).drop_last() =~= s);
        assert(t.subrange(p, i + 1).last() == t[i]);
        if t[i].token == Token::Identifier {
            lemma_joined_push(identifier_texts(s), '.', t[i].value);
            lemma_dotted_run(t, p, q, i + 1, name.push('.') + t[i].value);
        } else {
            lemma_dotted_run(t, p, q, i + 1, name);
        }
    }
}

/// A dotted name is read up to the first token that is neither an
/// identifier nor a dot: the name is the texts of its identifiers joined
/// by one `.` each, whatever dots stand between them.
pub proof fn law_dotted_name_joins_identifiers(t: Seq<SpecToken>, p: int, q: int)
    requires
        0 <= p < q <= t.len(),
        t[p].token == Token::Identifier,
        forall|k: int| p <= k < q ==> #[trigger] t[k].token == Token::Identifier || t[k].token
            == Token::Dot,
        q < t.len() ==> t[q].token != Token::Identifier && t[q].token != Token::Dot,
    ensures
        spec_dotted_identifier(t, p) == Ok::<_, SpecFail>(
            (joined(identifier_texts(t.subrange(p, q)), '.'), q),
        ),
{
    let s1 = t.subrange(p, p + 1);
    assert(s1.drop_last() =~= Seq::<SpecToken>::empty());
    assert(s1.last() == t[p]);
    assert(identifier_texts(Seq::<SpecToken>::empty()) =~= Seq::<Seq<char>>::empty());
    assert(identifier_texts(s1) =~= seq![t[p].value]);
    lemma_dotted_run(t, p, q, p + 1, t[p].value);
}

// ---------------------------------------------------------------------
// Field names

/// The text that a token gives to a field name: an identifier its text, the
/// keywords `message`, `map` and `repeated` their spelling.
pub open spec fn field_word(x: SpecToken) -> Seq<char> {
    if x.token == Token::Message {
        "message"@
    } else if x.token == Token::MapKeyword {
        "map"@
    } else if x.token == Token::Repeated {
        "repeated"@
    } else {
        x.value
    }
}

/// Whether a token can begin a field name.
pub open spec fn starts_field_name(k: Token) -> bool {
    k == Token::Identifier || k == Token::Message || k == Token::MapKeyword || k == Token::Repeated
}

proof fn lemma_field_name_run(t: Seq<SpecToken>, p: int, q: int, i: int, name: Seq<char>, l: crate::parser::error::Location)
    requires
        0 <= p < i <= q < t.len(),
        forall|k: int| p < k < q ==> #[trigger] t[k].token == Token::Identifier,
        t[q].token != Token::Identifier,
        name == joined(t.subrange(p, i).map_values(|x: SpecToken| field_word(x)), '_'),
    ensures
        spec_field_name_loop(t, i, true, name, l) == (
            true,
            joined(t.subrange(p, q).map_values(|x: SpecToken| field_word(x)), '_'),
            q,
            t[q].location,
        ),
    decreases q - i,
{
    if i < q {
        let s = t.subrange(p, i).map_values(|x: SpecToken| field_word(x));
        assert(t.subrange(p, i + 1).map_values(|x: SpecToken| field_word(x)) =~= s.push(
            field_word(t[i]),
        ));
        lemma_joined_push(s, '_', t[i].value);
        lemma_field_name_run(t, p, q, i + 1, name.push('_') + t[i].value, t[i].location);
    }
}

/// A field name that begins with an identifier or with one of the keywords
/// `message`, `map` and `repeated`, goes on with identifiers, and is
/// followed by `=` or by `message`, is its words joined by one `_` each;
/// the token after it is left unread.
pub proof fn law_field_name_joins_words(t: Seq<SpecToken>, p: int, q: int)
    requires
        0 <= p < q < t.len(),
        starts_field_name(t[p].token),
        forall|k: int| p < k < q ==> #[trigger] t[k].token == Token::Identifier,
        t[q].token == Token::Equals || t[q].token == Token::Message,
    ensures
        spec_field_name(t, p) == Ok::<_, SpecFail>(
            (joined(t.subrange(p, q).map_values(|x: SpecToken| field_word(x)), '_'), q),
        ),
{
    let s1 = t.subrange(p, p + 1).map_values(|x: SpecToken| field_word(x));
    assert(s1 =~= seq![field_word(t[p])]);
    lemma_field_name_run(t, p, q, p + 1, field_word(t[p]), t[p].location);
    let l0 = loc0();
    assert(spec_field_name_loop(t, p, false, Seq::empty(), l0) == spec_field_name_loop(
        t,
        p + 1,
        true,
        field_word(t[p]),
        t[p].location,
    ));
}

// ---------------------------------------------------------------------
// Type names

/// A type name with nothing before `)` or the end of input (comments
/// aside) is reported as an unexpected end of input, where reading stopped.
pub proof fn law_type_name_empty(t: Seq<SpecToken>, p: int)
    requires
        0 <= p,
        skip_comments(t, p) >= t.len() || t[skip_comments(t, p)].token == Token::CloseParen,
    ensures
        spec_type(t, p) == Err::<(Seq<char>, int), _>((eof(loc0()), skip_comments(t, p))),
{
    lemma_skip_comments(t, p);
}

/// Whether a token may stand inside a type name after its first part.
pub open spec fn in_type_name(k: Token) -> bool {
    k == Token::Identifier || k == Token::Dot || k == Token::Rpc || k == Token::Comment
}

proof fn lemma_type_name_bad(
    t: Seq<SpecToken>,
    i: int,
    j: int,
    name: Seq<char>,
    dot: bool,
)
    requires
        0 <= i <= j < t.len(),
        forall|k: int| i <= k < j ==> in_type_name(#[trigger] t[k].token),
        !in_type_name(t[j].token),
        t[j].token != Token::CloseParen,
    ensures
        spec_type_loop(t, i, name, false, dot) == Err::<(Seq<char>, int), _>(
            (found("Unexpected token in type name: "@, t[j]), j),
        ),
    decreases j - i,
{
    lemma_skip_comments(t, i);
    let q1 = skip_comments(t, i);
    assert(q1 <= j) by {
        if q1 > j {
            assert(t[j].token == Token::Comment);
        }
    }
    if q1 < j {
        let x = t[q1];
        assert(in_type_name(x.token));
        if x.token == Token::Identifier {
            lemma_type_name_bad(t, q1 + 1, j, name.push('.') + x.value, false);
            lemma_type_name_bad(t, q1 + 1, j, name + x.value, false);
        } else if x.token == Token::Dot {
            lemma_type_name_bad(t, q1 + 1, j, name.push('.'), true);
        } else {
            lemma_type_name_bad(t, q1 + 1, j, name.push('.') + "rpc"@, false);
            lemma_type_name_bad(t, q1 + 1, j, name + "rpc"@, false);
        }
    }
}

/// A type name whose first part is an identifier and that goes on with
/// identifiers, dots, `rpc` and comments up to a token that cannot stand in
/// it (nor end it) is an error at that token, where reading stops.
pub proof fn law_type_name_bad_token(t: Seq<SpecToken>, p: int, j: int)
    requires
        0 <= p,
        skip_comments(t, p) < j < t.len(),
        t[skip_comments(t, p)].token == Token::Identifier,
        forall|k: int| skip_comments(t, p) < k < j ==> in_type_name(#[trigger] t[k].token),
        !in_type_name(t[j].token),
        t[j].token != Token::CloseParen,
    ensures
        spec_type(t, p) == Err::<(Seq<char>, int), _>(
            (found("Unexpected token in type name: "@, t[j]), j),
        ),
{
    lemma_skip_comments(t, p);
    let q0 = skip_comments(t, p);
    lemma_type_name_bad(t, q0 + 1, j, Seq::<char>::empty() + t[q0].value, false);
}

// ---------------------------------------------------------------------
// Reserved lists

/// How many tokens a reserved item takes: three for a range, one otherwise.
pub open spec fn item_width(r: SpecReserved) -> int {
    match r {
        SpecReserved::Range(_, _) => 3,
        _ => 1,
    }
}

/// Whether the tokens at `q` spell the reserved item `r`: a number as a
/// decimal literal (not followed by `to`), a range as two decimal literals
/// with `to` between them and the first not above the second, a name as a
/// string literal.
pub open spec fn item_at(t: Seq<SpecToken>, q: int, r: SpecReserved) -> bool {
    0 <= q < t.len() && match r {
        SpecReserved::Number(n) => t[q].token == Token::DecimalIntLiteral(n as i64) && !kind_at(
            t,
            q + 1,
            Token::To,
        ),
        SpecReserved::Range(a, b) => {
            &&& t[q].token == Token::DecimalIntLiteral(a as i64)
            &&& kind_at(t, q + 1, Token::To)
            &&& q + 2 < t.len()
            &&& t[q + 2].token == Token::DecimalIntLiteral(b as i64)
            &&& a <= b
        },
        SpecReserved::FieldName(s) => t[q].token == Token::StringLiteral && t[q].value == s,
    }
}

/// Whether the tokens from `q` spell the items `rs` separated by commas,
/// with the closing semicolon at `e`.
pub open spec fn reserved_list_at(t: Seq<SpecToken>, q: int, rs: Seq<SpecReserved>, e: int) -> bool
    decreases rs.len(),
{
    if rs.len() == 0 {
        q == e && 0 <= e < t.len() && t[e].token == Token::Semicolon
    } else {
        let w = item_width(rs[0]);
        &&& item_at(t, q, rs[0])
        &&& if rs.len() == 1 {
            reserved_list_at(t, q + w, rs.drop_first(), e)
        } else {
            kind_at(t, q + w, Token::Comma) && reserved_list_at(t, q + w + 1, rs.drop_first(), e)
        }
    }
}

proof fn lemma_reserved_list(
    t: Seq<SpecToken>,
    q: int,
    rs: Seq<SpecReserved>,
    e: int,
    items: Seq<SpecReserved>,
    last: crate::parser::error::Location,
)
    requires
        reserved_list_at(t, q, rs, e),
    ensures
        spec_reserved_loop(t, q, items, last) == (items + rs, Ok::<int, SpecFail>(e + 1)),
    decreases rs.len(),
{
    if rs.len() == 0 {
        assert(items + rs =~= items);
    } else {
        let r = rs[0];
        let w = item_width(r);
        let x = t[q];
        assert(items.push(r) + rs.drop_first() =~= items + rs);
        match r {
            SpecReserved::Number(n) => {
                assert(fits_i32(n as i64));
                assert((n as i64) as i32 == n);
            },
            SpecReserved::Range(a, b) => {
                assert(fits_i32(a as i64));
                assert(fits_i32(b as i64));
                assert((a as i64) as i32 == a);
                assert((b as i64) as i32 == b);
            },
            SpecReserved::FieldName(s) => {},
        }
        if rs.len() == 1 {
            lemma_reserved_list(t, q + w, rs.drop_first(), e, items.push(r), x.location);
        } else {
            lemma_reserved_list(t, q + w + 1, rs.drop_first(), e, items.push(r), x.location);
            assert(spec_reserved_loop(t, q + w, items.push(r), x.location) == spec_reserved_loop(
                t,
                q + w + 1,
                items.push(r),
                x.location,
            ));
        }
    }
}

/// A `reserved` statement whose items are numbers, ordered ranges and
/// names separated by commas gives exactly those items in order, and
/// reading ends after its semicolon.
pub proof fn law_reserved_list(t: Seq<SpecToken>, p: int, rs: Seq<SpecReserved>, e: int)
    requires
        0 <= p < t.len(),
        t[p].token == Token::Reserved,
        reserved_list_at(t, p + 1, rs, e),
    ensures
        spec_reserved(t, p) == (rs, Ok::<int, SpecFail>(e + 1)),
{
    lemma_reserved_list(t, p + 1, rs, e, Seq::empty(), t[p].location);
    assert(Seq::<SpecReserved>::empty() + rs =~= rs);
}

// ---------------------------------------------------------------------
// Message bodies

/// One statement of a message body and what it gives.
pub enum SpecMember {
    Field(SpecField),
    Oneof(SpecOneOf),
    Message(SpecMessage),
    Enum(SpecEnum),
    Option(SpecProtoOption),
    Reserved(Seq<SpecReserved>),
}

/// The message `m` with what the statement `x` gives added after what it
/// already holds.
pub open spec fn with_member(m: SpecMessage, x: SpecMember) -> SpecMessage {
    match x {
        SpecMember::Field(f) => SpecMessage { fields: m.fields.push(f), ..m },
        SpecMember::Oneof(o) => SpecMessage { oneofs: m.oneofs.push(o), ..m },
        SpecMember::Message(n) => SpecMessage { nested_messages: m.nested_messages.push(n), ..m },
        SpecMember::Enum(e) => SpecMessage { nested_enums: m.nested_enums.push(e), ..m },
        SpecMember::Option(o) => SpecMessage { options: m.options.push(o), ..m },
        SpecMember::Reserved(rs) => SpecMessage { reserved: m.reserved + rs, ..m },
    }
}

/// The message `m` with the statements `xs` added in order.
pub open spec fn with_members(m: SpecMessage, xs: Seq<SpecMember>) -> SpecMessage
    decreases xs.len(),
{
    if xs.len() == 0 {
        m
    } else {
        with_members(with_member(m, xs[0]), xs.drop_first())
    }
}

/// Whether a kind of token begins a statement of a message body other than
/// a field.
pub open spec fn begins_other_member(k: Token) -> bool {
    k == Token::Message || k == Token::Enum || k == Token::Option || k == Token::Reserved
        || k == Token::Oneof || k == Token::CloseBrace || k == Token::Comment
}

/// Whether the statement `x` is read at `q`, and reading ends at `q2`.
pub open spec fn member_at(t: Seq<SpecToken>, q: int, x: SpecMember, q2: int) -> bool {
    &&& 0 <= q < q2 <= t.len()
    &&& match x {
        SpecMember::Field(f) => !begins_other_member(t[q].token) && spec_field(t, q) == Ok::<
            _,
            SpecFail,
        >((f, q2)),
        SpecMember::Oneof(o) => t[q].token == Token::Oneof && spec_oneof(t, q) == Ok::<_, SpecFail>(
            (o, q2),
        ),
        SpecMember::Message(n) => t[q].token == Token::Message && spec_message(t, q) == Ok::<
            _,
            SpecFail,
        >((n, q2)),
        SpecMember::Enum(e) => t[q].token == Token::Enum && spec_enum(t, q) == Ok::<_, SpecFail>(
            (e, q2),
        ),
        SpecMember::Option(o) => t[q].token == Token::Option && spec_option(t, q) == Ok::<
            _,
            SpecFail,
        >((o, q2)),
        SpecMember::Reserved(rs) => t[q].token == Token::Reserved && spec_reserved(t, q) == (
            rs,
            Ok::<int, SpecFail>(q2),
        ),
    }
}

/// Whether from `q` come, each after any comments, the statements `xs`
/// ending at the positions `ends`, and then, after any comments, the closing
/// brace at `e`.
pub open spec fn members_at(t: Seq<SpecToken>, q: int, xs: Seq<SpecMember>, ends: Seq<int>, e: int) -> bool
    decreases xs.len(),
{
    if xs.len() == 0 {
        skip_comments(t, q) == e && kind_at(t, e, Token::CloseBrace)
    } else {
        &&& ends.len() == xs.len()
        &&& member_at(t, skip_comments(t, q), xs[0], ends[0])
        &&& members_at(t, ends[0], xs.drop_first(), ends.drop_first(), e)
    }
}

proof fn lemma_members(
    t: Seq<SpecToken>,
    q: int,
    xs: Seq<SpecMember>,
    ends: Seq<int>,
    e: int,
    m: SpecMessage,
    ob: crate::parser::error::Location,
)
    requires
        0 <= q,
        members_at(t, q, xs, ends, e),
    ensures
        spec_message_body(t, q, m, ob) == Ok::<_, SpecFail>((with_members(m, xs), e + 1)),
    decreases xs.len(),
{
    lemma_skip_comments(t, q);
    let q1 = skip_comments(t, q);
    if xs.len() > 0 {
        lemma_members(t, ends[0], xs.drop_first(), ends.drop_first(), e, with_member(m, xs[0]), ob);
    }
}

/// A message whose body is made of statements (fields, map fields, oneofs,
/// nested messages and enums, options, reserved statements) and comments,
/// and then its closing brace, holds exactly what those statements give,
/// each kind in the order of the source; reading ends after the brace.
pub proof fn law_message_holds_its_members(
    t: Seq<SpecToken>,
    p: int,
    xs: Seq<SpecMember>,
    ends: Seq<int>,
    e: int,
)
    requires
        0 <= p,
        p + 2 < t.len(),
        t[p].token == Token::Message,
        t[p + 1].token == Token::Identifier,
        t[p + 2].token == Token::OpenBrace,
        members_at(t, p + 3, xs, ends, e),
    ensures
        spec_message(t, p) == Ok::<_, SpecFail>(
            (with_members(empty_message(t[p + 1].value), xs), e + 1),
        ),
{
    lemma_members(t, p + 3, xs, ends, e, empty_message(t[p + 1].value), t[p + 2].location);
}

// ---------------------------------------------------------------------
// Whole files

/// A definition at the top level of a file and what it gives.
pub enum SpecDefinition {
    Message(SpecMessage),
    Enum(SpecEnum),
    Service(SpecService),
}

/// The file `f` with what the definition `d` gives added after what it
/// already holds.
pub open spec fn with_definition(f: SpecProtoFile, d: SpecDefinition) -> SpecProtoFile {
    match d {
        SpecDefinition::Message(m) => SpecProtoFile { messages: f.messages.push(m), ..f },
        SpecDefinition::Enum(e) => SpecProtoFile { enums: f.enums.push(e), ..f },
        SpecDefinition::Service(s) => SpecProtoFile { services: f.services.push(s), ..f },
    }
}

/// The file `f` with the definitions `ds` added in order.
pub open spec fn with_definitions(f: SpecProtoFile, ds: Seq<SpecDefinition>) -> SpecProtoFile
    decreases ds.len(),
{
    if ds.len() == 0 {
        f
    } else {
        with_definitions(with_definition(f, ds[0]), ds.drop_first())
    }
}

/// Whether the definition `d` is read at `q`, and reading ends at `q2`.
pub open spec fn definition_at(t: Seq<SpecToken>, q: int, d: SpecDefinition, q2: int) -> bool {
    &&& 0 <= q < q2 <= t.len()
    &&& match d {
        SpecDefinition::Message(m) => t[q].token == Token::Message && spec_message(t, q) == Ok::<
            _,
            SpecFail,
        >((m, q2)),
        SpecDefinition::Enum(e) => t[q].token == Token::Enum && spec_enum(t, q) == Ok::<_, SpecFail>(
            (e, q2),
        ),
        SpecDefinition::Service(v) => t[q].token == Token::Service && spec_service(t, q) == Ok::<
            _,
            SpecFail,
        >((v, q2)),
    }
}

/// Whether from `q` come, each after any comments, the definitions `ds`
/// ending at the positions `ends`, and then only comments.
pub open spec fn definitions_at(t: Seq<SpecToken>, q: int, ds: Seq<SpecDefinition>, ends: Seq<int>) -> bool
    decreases ds.len(),
{
    if ds.len() == 0 {
        skip_comments(t, q) >= t.len()
    } else {
        &&& ends.len() == ds.len()
        &&& definition_at(t, skip_comments(t, q), ds[0], ends[0])
        &&& definitions_at(t, ends[0], ds.drop_first(), ends.drop_first())
    }
}

proof fn lemma_skip_twice(t: Seq<SpecToken>, q: int)
    requires
        0 <= q,
    ensures
        skip_comments(t, skip_comments(t, q)) == skip_comments(t, q),
{
    lemma_skip_comments(t, q);
    lemma_skip_comments(t, skip_comments(t, q));
}

proof fn lemma_top_level_step(t: Seq<SpecToken>, q: int, f: SpecProtoFile, d: SpecDefinition, q2: int)
    requires
        definition_at(t, q, d, q2),
    ensures
        spec_top_level(t, q, f) == spec_top_level(t, skip_comments(t, q2), with_definition(f, d)),
{
    lemma_skip_comments(t, q2);
}

proof fn lemma_definitions_skip(t: Seq<SpecToken>, q: int, ds: Seq<SpecDefinition>, ends: Seq<int>)
    requires
        0 <= q,
        definitions_at(t, q, ds, ends),
    ensures
        definitions_at(t, skip_comments(t, q), ds, ends),
{
    lemma_skip_twice(t, q);
}

proof fn lemma_definitions(t: Seq<SpecToken>, q: int, ds: Seq<SpecDefinition>, ends: Seq<int>, f: SpecProtoFile)
    requires
        0 <= q,
        skip_comments(t, q) == q,
        definitions_at(t, q, ds, ends),
    ensures
        spec_top_level(t, q, f) == Ok::<_, SpecParseError>(with_definitions(f, ds)),
    decreases ds.len(),
{
    if ds.len() == 0 {
        lemma_skip_comments(t, q);
    } else {
        let q2 = ends[0];
        lemma_skip_comments(t, q2);
        lemma_skip_twice(t, q2);
        lemma_definitions_skip(t, q2, ds.drop_first(), ends.drop_first());
        lemma_top_level_step(t, q, f, ds[0], q2);
        lemma_definitions(
            t,
            skip_comments(t, q2),
            ds.drop_first(),
            ends.drop_first(),
            with_definition(f, ds[0]),
        );
    }
}

proof fn lemma_no_packages(t: Seq<SpecToken>, q: int)
    requires
        0 <= q,
        skip_comments(t, q) < t.len() ==> t[skip_comments(t, q)].token != Token::Package,
    ensures
        spec_packages(t, q, None) == Ok::<_, SpecFail>((None::<Seq<char>>, skip_comments(t, q))),
    decreases t.len() - q,
{
    if q < t.len() && t[q].token == Token::Comment {
        lemma_no_packages(t, q + 1);
    }
}

/// A file made of a syntax statement, then only comments and definitions
/// of messages, enums and services, holds exactly those definitions, each
/// kind in the order of the source, and no package, import or option.
pub proof fn law_file_holds_its_definitions(
    t: Seq<SpecToken>,
    syntax: Syntax,
    p1: int,
    ds: Seq<SpecDefinition>,
    ends: Seq<int>,
)
    requires
        spec_syntax(t, skip_comments(t, 0)) == Ok::<_, SpecFail>((syntax, p1)),
        0 <= p1,
        definitions_at(t, p1, ds, ends),
    ensures
        spec_file(t) == Ok::<_, SpecParseError>(
            with_definitions(SpecProtoFile { syntax, ..empty_file() }, ds),
        ),
{
    let q = skip_comments(t, p1);
    lemma_skip_comments(t, p1);
    lemma_skip_twice(t, p1);
    lemma_no_packages(t, p1);
    assert(definitions_at(t, q, ds, ends));
    lemma_definitions(t, q, ds, ends, SpecProtoFile { syntax, ..empty_file() });
    assert(spec_imports(t, q, Seq::empty()) == Ok::<_, SpecFail>((Seq::<crate::parser::ast::SpecImport>::empty(), q)));
    assert(spec_file_options(t, q, Seq::empty()) == Ok::<_, SpecFail>((Seq::<SpecProtoOption>::empty(), q)));
}

// ---------------------------------------------------------------------
// Rpcs

/// Whether every token from `a` up to `b` (not included) is a comment.
pub open spec fn comments_only(t: Seq<SpecToken>, a: int, b: int) -> bool {
    forall|k: int| a <= k < b ==> #[trigger] t[k].token == Token::Comment
}

proof fn lemma_skip_to(t: Seq<SpecToken>, a: int, b: int)
    requires
        0 <= a <= b < t.len(),
        comments_only(t, a, b),
        t[b].token != Token::Comment,
    ensures
        skip_comments(t, a) == b,
    decreases b - a,
{
    if a < b {
        lemma_skip_to(t, a + 1, b);
    }
}

/// The kinds of the tokens of an rpc without options, in order: the
/// `stream` keywords are there where `cs` and `ss` say.
pub open spec fn rpc_kinds(cs: bool, ss: bool) -> Seq<Token> {
    seq![Token::Rpc, Token::Identifier, Token::OpenParen] + (if cs {
        seq![Token::Stream]
    } else {
        Seq::empty()
    }) + seq![Token::Identifier, Token::CloseParen, Token::Returns, Token::OpenParen] + (if ss {
        seq![Token::Stream]
    } else {
        Seq::empty()
    }) + seq![Token::Identifier, Token::CloseParen, Token::Semicolon]
}

/// Whether the tokens at the positions `ps`, which rise from `p` on, have
/// the kinds `ks`, with nothing but comments before and between them.
pub open spec fn spelled_at(t: Seq<SpecToken>, p: int, ps: Seq<int>, ks: Seq<Token>) -> bool {
    &&& ps.len() == ks.len()
    &&& ps.len() > 0
    &&& 0 <= p <= ps[0]
    &&& comments_only(t, p, ps[0])
    &&& ps.last() < t.len()
    &&& forall|i: int| 0 <= i < ps.len() ==> t[#[trigger] ps[i]].token == ks[i]
    &&& forall|i: int|
        0 <= i < ps.len() - 1 ==> #[trigger] ps[i] < ps[i + 1] && comments_only(t, ps[i] + 1, ps[i + 1])
}

proof fn lemma_type_one(t: Seq<SpecToken>, a: int, b: int)
    requires
        0 <= a < b < t.len(),
        t[a].token == Token::Identifier,
        t[a].value.len() > 0,
        skip_comments(t, a) == a,
        skip_comments(t, a + 1) == b,
        t[b].token == Token::CloseParen,
    ensures
        spec_type(t, a) == Ok::<_, SpecFail>((t[a].value, b)),
{
    assert(Seq::<char>::empty() + t[a].value =~= t[a].value);
    assert(spec_type_loop(t, a + 1, t[a].value, false, false) == Ok::<_, SpecFail>(
        (t[a].value, b),
    ));
}

proof fn lemma_rpc_front(
    t: Seq<SpecToken>,
    p: int,
    a0: int,
    a1: int,
    a2: int,
    a3: int,
    a4: int,
    a5: int,
    cs: bool,
)
    requires
        0 <= p <= a0 < a1 < a2 < a4 < a5 < t.len(),
        t[a0].token == Token::Rpc,
        t[a1].token == Token::Identifier,
        t[a2].token == Token::OpenParen,
        t[a4].token == Token::Identifier,
        t[a4].value.len() > 0,
        t[a5].token == Token::CloseParen,
        skip_comments(t, p) == a0,
        skip_comments(t, a0 + 1) == a1,
        skip_comments(t, a1 + 1) == a2,
        skip_comments(t, a2 + 1) == if cs { a3 } else { a4 },
        cs ==> a2 < a3 < a4 && t[a3].token == Token::Stream && skip_comments(t, a3 + 1) == a4,
        skip_comments(t, a4) == a4,
        skip_comments(t, a4 + 1) == a5,
    ensures
        spec_method(t, p) == spec_method_rest(t, a5, t[a1].value, cs, t[a4].value),
{
    assert(spec_stream(t, skip_comments(t, a2 + 1)) == (cs, a4));
    lemma_type_one(t, a4, a5);
}

proof fn lemma_rpc_rest(
    t: Seq<SpecToken>,
    x0: int,
    x1: int,
    x2: int,
    x3: int,
    y: int,
    x4: int,
    x5: int,
    ss: bool,
    name: Seq<char>,
    cs: bool,
    input: Seq<char>,
)
    requires
        0 <= x0 < x1 < x2 < y < x4 < x5 < t.len(),
        t[x0].token == Token::CloseParen,
        t[x1].token == Token::Returns,
        t[x2].token == Token::OpenParen,
        t[y].token == Token::Identifier,
        t[y].value.len() > 0,
        t[x4].token == Token::CloseParen,
        t[x5].token == Token::Semicolon,
        skip_comments(t, x0) == x0,
        skip_comments(t, x0 + 1) == x1,
        skip_comments(t, x1 + 1) == x2,
        skip_comments(t, x2 + 1) == if ss { x3 } else { y },
        ss ==> x2 < x3 < y && t[x3].token == Token::Stream && skip_comments(t, x3 + 1) == y,
        skip_comments(t, y) == y,
        skip_comments(t, y + 1) == x4,
        skip_comments(t, x4 + 1) == x5,
    ensures
        spec_method_rest(t, x0, name, cs, input) == Ok::<_, SpecFail>(
            (
                SpecMethod {
                    name,
                    input_type: input,
                    output_type: t[y].value,
                    client_streaming: cs,
                    server_streaming: ss,
                    options: Seq::empty(),
                },
                x5 + 1,
            ),
        ),
{
    assert(spec_stream(t, skip_comments(t, x2 + 1)) == (ss, y));
    lemma_type_one(t, y, x4);
}

/// An rpc `rpc Name ([stream] In) returns ([stream] Out);` with comments
/// before and between any of its tokens gives its name, its types and its
/// `stream` keywords, and no options; reading ends after the semicolon.
pub proof fn law_rpc_with_comments(t: Seq<SpecToken>, p: int, ps: Seq<int>, cs: bool, ss: bool)
    requires
        spelled_at(t, p, ps, rpc_kinds(cs, ss)),
        t[ps[3 + (if cs { 1int } else { 0 })]].value.len() > 0,
        t[ps[7 + (if cs { 1int } else { 0 }) + (if ss { 1int } else { 0 })]].value.len() > 0,
    ensures
        spec_method(t, p) == Ok::<_, SpecFail>(
            (
                SpecMethod {
                    name: t[ps[1]].value,
                    input_type: t[ps[3 + (if cs { 1int } else { 0 })]].value,
                    output_type: t[ps[7 + (if cs { 1int } else { 0 }) + (if ss { 1int } else { 0 })]].value,
                    client_streaming: cs,
                    server_streaming: ss,
                    options: Seq::empty(),
                },
                ps.last() + 1,
            ),
        ),
{
    let ks = rpc_kinds(cs, ss);
    let c: int = if cs { 1 } else { 0 };
    let s: int = if ss { 1 } else { 0 };
    assert(ks.len() == 10 + c + s);
    assert(ks[0] == Token::Rpc && ks[1] == Token::Identifier && ks[2] == Token::OpenParen);
    assert(ks[3 + c] == Token::Identifier && ks[4 + c] == Token::CloseParen);
    assert(ks[5 + c] == Token::Returns && ks[6 + c] == Token::OpenParen);
    assert(ks[7 + c + s] == Token::Identifier && ks[8 + c + s] == Token::CloseParen);
    assert(ks[9 + c + s] == Token::Semicolon);
    assert(cs ==> ks[3] == Token::Stream);
    assert(ss ==> ks[7 + c] == Token::Stream);
    assert forall|i: int| 0 <= i < ps.len() - 1 implies skip_comments(t, #[trigger] ps[i] + 1)
        == ps[i + 1] && skip_comments(t, ps[i]) == ps[i] by {
        assert(ps[i] < ps[i + 1]);
        assert(t[ps[i]].token == ks[i]);
        assert(t[ps[i + 1]].token == ks[i + 1]);
        lemma_skip_to(t, ps[i] + 1, ps[i + 1]);
    }
    assert(t[ps[0]].token == ks[0]);
    lemma_skip_to(t, p, ps[0]);
    let n = 9 + c + s;
    assert(t[ps[n]].token == ks[n]);
    assert(ps[n] < ps[n] + 1);
    let a4 = ps[3 + c];
    assert(t[ps[1]].token == ks[1]);
    assert(t[ps[2]].token == ks[2]);
    assert(t[ps[3]].token == ks[3]);
    assert(t[a4].token == ks[3 + c]);
    assert(t[ps[4 + c]].token == ks[4 + c]);
    assert(t[ps[5 + c]].token == ks[5 + c]);
    assert(t[ps[6 + c]].token == ks[6 + c]);
    assert(t[ps[7 + c]].token == ks[7 + c]);
    assert(t[ps[7 + c + s]].token == ks[7 + c + s]);
    assert(t[ps[8 + c + s]].token == ks[8 + c + s]);
    assert(ps[0] < ps[1] && ps[1] < ps[2] && ps[2] < ps[3]);
    assert(cs ==> ps[3] < ps[4]);
    assert(ps[3 + c] < ps[4 + c] && ps[4 + c] < ps[5 + c] && ps[5 + c] < ps[6 + c]);
    assert(ps[6 + c] < ps[7 + c]);
    assert(ss ==> ps[7 + c] < ps[8 + c]);
    assert(ps[7 + c + s] < ps[8 + c + s] && ps[8 + c + s] < ps[9 + c + s]);
    lemma_rpc_front(t, p, ps[0], ps[1], ps[2], ps[3], a4, ps[4 + c], cs);
    lemma_rpc_rest(
        t,
        ps[4 + c],
        ps[5 + c],
        ps[6 + c],
        ps[7 + c],
        ps[7 + c + s],
        ps[8 + c + s],
        ps[9 + c + s],
        ss,
        t[ps[1]].value,
        cs,
        t[a4].value,
    );
    assert(ps.last() == ps[n]);
}

// ---------------------------------------------------------------------
// Comments in headers and in services

/// Comments between package declarations are skipped: reading from the
/// first comment gives what reading from after the comments gives.
pub proof fn law_package_comments_skipped(t: Seq<SpecToken>, q: int, pkg: Option<Seq<char>>)
    requires
        0 <= q,
    ensures
        spec_packages(t, q, pkg) == spec_packages(t, skip_comments(t, q), pkg),
    decreases t.len() - q,
{
    lemma_skip_comments(t, q);
    if q < t.len() && t[q].token == Token::Comment {
        law_package_comments_skipped(t, q + 1, pkg);
    }
}

/// Comments between import statements are skipped: reading from the first
/// comment gives what reading from after the comments gives, so imports
/// separated by comments are all read, in order.
pub proof fn law_import_comments_skipped(
    t: Seq<SpecToken>,
    q: int,
    imports: Seq<crate::parser::ast::SpecImport>,
)
    requires
        0 <= q,
    ensures
        spec_imports(t, q, imports) == spec_imports(t, skip_comments(t, q), imports),
    decreases t.len() - q,
{
    lemma_skip_comments(t, q);
    if q < t.len() && t[q].token == Token::Comment {
        law_import_comments_skipped(t, q + 1, imports);
    }
}

/// Comments between file options are skipped: reading from the first
/// comment gives what reading from after the comments gives.
pub proof fn law_file_option_comments_skipped(
    t: Seq<SpecToken>,
    q: int,
    opts: Seq<SpecProtoOption>,
)
    requires
        0 <= q,
    ensures
        spec_file_options(t, q, opts) == spec_file_options(t, skip_comments(t, q), opts),
    decreases t.len() - q,
{
    lemma_skip_comments(t, q);
    if q < t.len() && t[q].token == Token::Comment {
        law_file_option_comments_skipped(t, q + 1, opts);
    }
}

/// Comments inside the body of a service are skipped: reading the body
/// from the first comment gives what reading it from after the comments
/// gives, so rpcs and options separated by comments are all read.
pub proof fn law_service_body_comments_skipped(t: Seq<SpecToken>, q: int, sv: SpecService)
    requires
        0 <= q,
    ensures
        spec_service_body(t, q, sv) == spec_service_body(t, skip_comments(t, q), sv),
{
    lemma_skip_twice(t, q);
    lemma_skip_comments(t, q);
}

// ---------------------------------------------------------------------
// Numbers

/// Whether `n` is the number that the token `x` spells: a decimal, hex or
/// octal literal gives its value with that base, a floating-point literal
/// its text; no other token spells a number.
pub open spec fn spells_number(x: SpecToken, n: SpecNumberValue) -> bool {
    match x.token {
        Token::DecimalIntLiteral(v) => n == SpecNumberValue::DecimalInt(v),
        Token::HexIntLiteral(v) => n == SpecNumberValue::Hex(v),
        Token::OctalIntLiteral(v) => n == SpecNumberValue::Octal(v),
        Token::FloatLiteral => n == SpecNumberValue::Float(x.value),
        _ => false,
    }
}

/// An enum value that is read is `NAME = number`: its name is the text of
/// the first token and its number is the one that the third token spells.
pub proof fn law_enum_value_number(t: Seq<SpecToken>, p: int)
    requires
        0 <= p,
    ensures
        spec_enum_value(t, p) matches Ok((ev, _)) ==> {
            &&& 0 <= p && p + 2 < t.len()
            &&& t[p].token == Token::Identifier
            &&& t[p + 1].token == Token::Equals
            &&& ev.name == t[p].value
            &&& spells_number(t[p + 2], ev.number)
        },
{
}

proof fn lemma_field_name_loop_moves_on(
    t: Seq<SpecToken>,
    q: int,
    started: bool,
    name: Seq<char>,
    l: crate::parser::error::Location,
)
    requires
        0 <= q,
    ensures
        spec_field_name_loop(t, q, started, name, l).2 >= q,
    decreases t.len() - q,
{
    if q < t.len() {
        let x = t[q];
        if x.token == Token::Identifier {
            let name2 = if started {
                name.push('_') + x.value
            } else {
                x.value
            };
            lemma_field_name_loop_moves_on(t, q + 1, true, name2, x.location);
        } else if x.token == Token::Message && !started {
            lemma_field_name_loop_moves_on(t, q + 1, true, "message"@, x.location);
        } else if x.token == Token::MapKeyword && !started {
            lemma_field_name_loop_moves_on(t, q + 1, true, "map"@, x.location);
        } else if x.token == Token::Repeated && !started {
            lemma_field_name_loop_moves_on(t, q + 1, true, "repeated"@, x.location);
        }
    }
}

/// A field that is read ends with `= number ;`: its number is the one that
/// the token before the semicolon spells.
pub proof fn law_field_number(t: Seq<SpecToken>, p: int)
    requires
        0 <= p,
    ensures
        spec_field(t, p) matches Ok((f, q)) ==> {
            &&& 3 <= q <= t.len()
            &&& t[q - 3].token == Token::Equals
            &&& spells_number(t[q - 2], f.number)
            &&& t[q - 1].token == Token::Semicolon
        },
{
    lemma_skip_comments(t, p);
    let q0 = skip_comments(t, p);
    lemma_skip_comments(t, q0 + 1);
    lemma_skip_comments(t, q0);
    let l0 = loc0();
    assert forall|r: int| 0 <= r implies spec_field_name_loop(t, r, false, Seq::empty(), l0).2 >= r by {
        lemma_field_name_loop_moves_on(t, r, false, Seq::empty(), l0);
    }
}

/// Comments inside the options block of an rpc are skipped: reading the
/// block from the first comment gives what reading it from after the
/// comments gives.
pub proof fn law_rpc_option_comments_skipped(t: Seq<SpecToken>, q: int, opts: Seq<SpecProtoOption>)
    requires
        0 <= q,
    ensures
        spec_method_options(t, q, opts) == spec_method_options(t, skip_comments(t, q), opts),
{
    lemma_skip_comments(t, q);
    if q < t.len() && t[q].token == Token::Comment {
        lemma_skip_comments(t, q + 1);
    }
}

// ---------------------------------------------------------------------
// Values

/// Whether `v` is the option value that the token `x` spells: a string
/// literal or an identifier its text, an integer literal its value with its
/// base, a floating-point literal its text; no other token is a value.
pub open spec fn spells_option_value(x: SpecToken, v: SpecOptionValue) -> bool {
    match x.token {
        Token::StringLiteral => v == SpecOptionValue::String(x.value),
        Token::Identifier => v == SpecOptionValue::Identifier(x.value),
        Token::DecimalIntLiteral(n) => v == SpecOptionValue::DecimalInt(n),
        Token::OctalIntLiteral(n) => v == SpecOptionValue::Octal(n),
        Token::HexIntLiteral(n) => v == SpecOptionValue::Hex(n),
        Token::FloatLiteral => v == SpecOptionValue::Float(x.value),
        _ => false,
    }
}

/// An option value that is read is the one its token spells, and reading
/// takes exactly that token.
pub proof fn law_option_value_spelled(t: Seq<SpecToken>, p: int)
    requires
        0 <= p,
    ensures
        spec_option_value(t, p) matches Ok((v, q)) ==> q == p + 1 && p < t.len()
            && spells_option_value(t[p], v),
{
}

/// An option of an enum value that is read is `name = value`: its name is
/// the first token's text, and its value is a string, an identifier, a
/// decimal integer or a floating-point number that the third token spells.
pub proof fn law_enum_value_option_spelled(t: Seq<SpecToken>, p: int)
    requires
        0 <= p,
    ensures
        spec_enum_value_option(t, p) matches Ok((o, q)) ==> {
            &&& q == p + 3 && q <= t.len()
            &&& t[p].token == Token::Identifier
            &&& t[p + 1].token == Token::Equals
            &&& o.name == t[p].value
            &&& match t[p + 2].token {
                Token::StringLiteral => o.value == SpecEnumValueOptionValue::String(t[p + 2].value),
                Token::Identifier => o.value == SpecEnumValueOptionValue::Identifier(t[p + 2].value),
                Token::DecimalIntLiteral(n) => o.value == SpecEnumValueOptionValue::DecimalInt(n),
                Token::FloatLiteral => o.value == SpecEnumValueOptionValue::Float(t[p + 2].value),
                _ => false,
            }
        },
{
}

/// Field types by name: each scalar type of Protobuf is named by its
/// keyword, `string` is its own token, and any other identifier names a
/// message or an enum.
pub proof fn law_field_type_names(x: SpecToken)
    ensures
        x.token == Token::StringType ==> spec_field_type(x) == Ok::<_, SpecParseError>(
            SpecFieldType::String,
        ),
        x.token == Token::Identifier ==> {
            let v = x.value;
            let ty = if v == "double"@ {
                SpecFieldType::Double
            } else if v == "float"@ {
                SpecFieldType::Float
            } else if v == "int32"@ {
                SpecFieldType::Int32
            } else if v == "int64"@ {
                SpecFieldType::Int64
            } else if v == "uint32"@ {
                SpecFieldType::UInt32
            } else if v == "uint64"@ {
                SpecFieldType::UInt64
            } else if v == "sint32"@ {
                SpecFieldType::SInt32
            } else if v == "sint64"@ {
                SpecFieldType::SInt64
            } else if v == "fixed32"@ {
                SpecFieldType::Fixed32
            } else if v == "fixed64"@ {
                SpecFieldType::Fixed64
            } else if v == "sfixed32"@ {
                SpecFieldType::SFixed32
            } else if v == "sfixed64"@ {
                SpecFieldType::SFixed64
            } else if v == "bool"@ {
                SpecFieldType::Bool
            } else if v == "bytes"@ {
                SpecFieldType::Bytes
            } else {
                SpecFieldType::MessageOrEnum(v)
            };
            spec_field_type(x) == Ok::<_, SpecParseError>(ty)
        },
        x.token != Token::Identifier && x.token != Token::StringType ==> spec_field_type(x) is Err,
{
}

// ---------------------------------------------------------------------
// Enum and oneof bodies

/// One statement of an enum body and what it gives.
pub enum SpecEnumMember {
    Value(SpecEnumValue),
    Option(SpecEnumValueOption),
}

/// The enum `e` with the statements `xs` added in order.
pub open spec fn with_enum_members(e: SpecEnum, xs: Seq<SpecEnumMember>) -> SpecEnum
    decreases xs.len(),
{
    if xs.len() == 0 {
        e
    } else {
        let e2 = match xs[0] {
            SpecEnumMember::Value(v) => SpecEnum { values: e.values.push(v), ..e },
            SpecEnumMember::Option(o) => SpecEnum { options: e.options.push(o), ..e },
        };
        with_enum_members(e2, xs.drop_first())
    }
}

/// Whether from `q` come the enum statements `xs` ending at the positions
/// `ends`, and then the closing brace at `e`.
pub open spec fn enum_members_at(
    t: Seq<SpecToken>,
    q: int,
    xs: Seq<SpecEnumMember>,
    ends: Seq<int>,
    e: int,
) -> bool
    decreases xs.len(),
{
    if xs.len() == 0 {
        q == e && kind_at(t, e, Token::CloseBrace)
    } else {
        &&& ends.len() == xs.len()
        &&& 0 <= q < ends[0] <= t.len()
        &&& match xs[0] {
            SpecEnumMember::Value(v) => t[q].token == Token::Identifier && spec_enum_value(t, q)
                == Ok::<_, SpecFail>((v, ends[0])),
            SpecEnumMember::Option(o) => t[q].token == Token::Option && spec_enum_option(t, q)
                == Ok::<_, SpecFail>((o, ends[0])),
        }
        &&& enum_members_at(t, ends[0], xs.drop_first(), ends.drop_first(), e)
    }
}

proof fn lemma_enum_members(
    t: Seq<SpecToken>,
    q: int,
    xs: Seq<SpecEnumMember>,
    ends: Seq<int>,
    e: int,
    en: SpecEnum,
    ob: crate::parser::error::Location,
)
    requires
        enum_members_at(t, q, xs, ends, e),
    ensures
        spec_enum_body(t, q, en, ob) == Ok::<_, SpecFail>((with_enum_members(en, xs), e + 1)),
    decreases xs.len(),
{
    if xs.len() > 0 {
        let e2 = match xs[0] {
            SpecEnumMember::Value(v) => SpecEnum { values: en.values.push(v), ..en },
            SpecEnumMember::Option(o) => SpecEnum { options: en.options.push(o), ..en },
        };
        lemma_enum_members(t, ends[0], xs.drop_first(), ends.drop_first(), e, e2, ob);
    }
}

/// An enum whose body is made of values and options, and then its closing
/// brace, holds exactly those values and options, each in source order;
/// reading ends after the brace.
pub proof fn law_enum_holds_its_members(
    t: Seq<SpecToken>,
    p: int,
    xs: Seq<SpecEnumMember>,
    ends: Seq<int>,
    e: int,
)
    requires
        0 <= p,
        p + 2 < t.len(),
        t[p].token == Token::Enum,
        t[p + 1].token == Token::Identifier,
        t[p + 2].token == Token::OpenBrace,
        enum_members_at(t, p + 3, xs, ends, e),
    ensures
        spec_enum(t, p) == Ok::<_, SpecFail>(
            (with_enum_members(empty_enum(t[p + 1].value), xs), e + 1),
        ),
{
    lemma_enum_members(t, p + 3, xs, ends, e, empty_enum(t[p + 1].value), t[p + 2].location);
}

/// Whether from `q` come fields with the values `fs` ending at the
/// positions `ends`, and then the closing brace at `e`.
pub open spec fn oneof_fields_at(t: Seq<SpecToken>, q: int, fs: Seq<SpecField>, ends: Seq<int>, e: int) -> bool
    decreases fs.len(),
{
    if fs.len() == 0 {
        q == e && kind_at(t, e, Token::CloseBrace)
    } else {
        &&& ends.len() == fs.len()
        &&& 0 <= q < ends[0] <= t.len()
        &&& t[q].token != Token::CloseBrace
        &&& spec_field(t, q) == Ok::<_, SpecFail>((fs[0], ends[0]))
        &&& oneof_fields_at(t, ends[0], fs.drop_first(), ends.drop_first(), e)
    }
}

proof fn lemma_oneof_fields(
    t: Seq<SpecToken>,
    q: int,
    fs: Seq<SpecField>,
    ends: Seq<int>,
    e: int,
    o: SpecOneOf,
)
    requires
        oneof_fields_at(t, q, fs, ends, e),
    ensures
        spec_oneof_body(t, q, o) == Ok::<_, SpecFail>((SpecOneOf { fields: o.fields + fs, ..o }, e + 1)),
    decreases fs.len(),
{
    if fs.len() == 0 {
        assert(o.fields + fs =~= o.fields);
    } else {
        let o2 = SpecOneOf { fields: o.fields.push(fs[0]), ..o };
        lemma_oneof_fields(t, ends[0], fs.drop_first(), ends.drop_first(), e, o2);
        assert(o2.fields + fs.drop_first() =~= o.fields + fs);
    }
}

/// A oneof `oneof name { fields }` holds exactly its fields, in order;
/// reading ends after its closing brace.
pub proof fn law_oneof_holds_its_fields(t: Seq<SpecToken>, p: int, fs: Seq<SpecField>, ends: Seq<int>, e: int)
    requires
        0 <= p,
        p + 2 < t.len(),
        t[p].token == Token::Oneof,
        t[p + 1].token == Token::Identifier,
        t[p + 2].token == Token::OpenBrace,
        oneof_fields_at(t, p + 3, fs, ends, e),
    ensures
        spec_oneof(t, p) == Ok::<_, SpecFail>((SpecOneOf { name: t[p + 1].value, fields: fs }, e + 1)),
{
    lemma_oneof_fields(t, p + 3, fs, ends, e, SpecOneOf { name: t[p + 1].value, fields: Seq::empty() });
    assert(Seq::<SpecField>::empty() + fs =~= fs);
}

} // verus!
