//! The grammar that the parser accepts, written as functions from a
//! sequence of tokens and a position in it to the value that is read there
//! and the position after it, or to the error that is reported and the
//! position where reading stopped.
//!
//! Every function of the parser is specified by one of these.
use vstd::prelude::*;

use crate::parser::ast::{
    empty_enum, empty_message, FieldLabel, ImportKind, SpecEnum, SpecEnumValue,
    SpecEnumValueOption, SpecEnumValueOptionValue, SpecField, SpecFieldType, SpecImport,
    SpecMessage, SpecNumberValue, SpecOneOf, SpecOptionValue, SpecProtoFile, SpecProtoOption,
    SpecReserved, SpecService, SpecMethod, Syntax,
};
use crate::parser::error::{loc0, Location, ParseError, SpecParseError};
use crate::parser::lexer::spec_tokenize;
use crate::parser::token::{kind_debug, token_debug, SpecToken, Token};

verus! {

/// An error and the position where reading stopped.
pub type SpecFail = (SpecParseError, int);

/// What a parsing function gives back: a value and the position after it,
/// or an error and the position where reading stopped.
pub type SpecResult<T> = Result<(T, int), SpecFail>;

/// What a step gives back: the position after it, or an error and the
/// position where reading stopped.
pub type SpecStep = Result<int, SpecFail>;

/// The model of a parsing function's result, given the position it left.
pub open spec fn outcome<X: View>(r: Result<X, ParseError>, p: usize) -> SpecResult<X::V> {
    match r {
        Ok(x) => Ok((x@, p as int)),
        Err(e) => Err((e@, p as int)),
    }
}

/// A successful step that ends at position `p`.
pub open spec fn at(p: int) -> SpecStep {
    Ok(p)
}

/// A step that fails with `e` and stops at position `p`.
pub open spec fn fails(e: SpecParseError, p: int) -> SpecStep {
    Err((e, p))
}

pub open spec fn eof(l: Location) -> SpecParseError {
    SpecParseError::UnexpectedEndOfInput(l)
}

/// An unexpected token: the message is the prefix and then the token's
/// `Debug` form.
pub open spec fn found(prefix: Seq<char>, x: SpecToken) -> SpecParseError {
    SpecParseError::UnexpectedToken(prefix + token_debug(x), x.location)
}

pub open spec fn expected_prefix(k: Token) -> Seq<char> {
    "Expected "@ + kind_debug(k) + ", found "@
}

/// Whether position `p` holds a token of kind `k`.
pub open spec fn kind_at(t: Seq<SpecToken>, p: int, k: Token) -> bool {
    0 <= p < t.len() && t[p].token == k
}

/// Takes one token of kind `k`: the end of input is reported at `l`, another
/// token with the message `prefix` followed by that token's text; that token
/// is taken all the same.
pub open spec fn want(t: Seq<SpecToken>, p: int, k: Token, l: Location, prefix: Seq<char>) -> SpecStep {
    if p >= t.len() {
        Err((eof(l), p))
    } else if t[p].token == k {
        Ok(p + 1)
    } else {
        Err((found(prefix, t[p]), p + 1))
    }
}

/// Looks at one token, which must be of kind `k`, and takes it only if it
/// is: the end of input is reported at `l`, another token with the message
/// `prefix` followed by that token's `Debug` form, and left unread.
pub open spec fn peek_want(t: Seq<SpecToken>, p: int, k: Token, l: Location, prefix: Seq<char>) -> SpecStep {
    if p >= t.len() {
        Err((eof(l), p))
    } else if t[p].token == k {
        Ok(p + 1)
    } else {
        Err((found(prefix, t[p]), p))
    }
}

/// Takes one token of kind `k`, with the usual message.
pub open spec fn expect_at(t: Seq<SpecToken>, p: int, k: Token, l: Location) -> SpecStep {
    want(t, p, k, l, expected_prefix(k))
}

/// The first position at or after `p` that does not hold a comment.
pub open spec fn skip_comments(t: Seq<SpecToken>, p: int) -> int
    decreases t.len() - p,
{
    if 0 <= p < t.len() && t[p].token == Token::Comment {
        skip_comments(t, p + 1)
    } else {
        p
    }
}

pub proof fn lemma_skip_comments(t: Seq<SpecToken>, p: int)
    requires
        0 <= p,
    ensures
        p <= skip_comments(t, p),
        p <= t.len() ==> skip_comments(t, p) <= t.len(),
        skip_comments(t, p) < t.len() ==> t[skip_comments(t, p)].token != Token::Comment,
        forall|i: int| p <= i < skip_comments(t, p) ==> t[i].token == Token::Comment,
    decreases t.len() - p,
{
    if 0 <= p < t.len() && t[p].token == Token::Comment {
        lemma_skip_comments(t, p + 1);
    }
}

/// The number that a token stands for, where it stands for one.
pub open spec fn number_of(x: SpecToken) -> Option<SpecNumberValue> {
    match x.token {
        Token::DecimalIntLiteral(v) => Some(SpecNumberValue::DecimalInt(v)),
        Token::FloatLiteral => Some(SpecNumberValue::Float(x.value)),
        Token::HexIntLiteral(v) => Some(SpecNumberValue::Hex(v)),
        Token::OctalIntLiteral(v) => Some(SpecNumberValue::Octal(v)),
        _ => None,
    }
}

/// The value of an enum option that a token stands for, where it stands for one.
pub open spec fn enum_option_value_of(x: SpecToken) -> Option<SpecEnumValueOptionValue> {
    match x.token {
        Token::StringLiteral => Some(SpecEnumValueOptionValue::String(x.value)),
        Token::Identifier => Some(SpecEnumValueOptionValue::Identifier(x.value)),
        Token::DecimalIntLiteral(v) => Some(SpecEnumValueOptionValue::DecimalInt(v)),
        Token::FloatLiteral => Some(SpecEnumValueOptionValue::Float(x.value)),
        _ => None,
    }
}

/// The value of an option that a token stands for, where it stands for one.
pub open spec fn option_value_of(x: SpecToken) -> Option<SpecOptionValue> {
    match x.token {
        Token::StringLiteral => Some(SpecOptionValue::String(x.value)),
        Token::Identifier => Some(SpecOptionValue::Identifier(x.value)),
        Token::DecimalIntLiteral(v) => Some(SpecOptionValue::DecimalInt(v)),
        Token::OctalIntLiteral(v) => Some(SpecOptionValue::Octal(v)),
        Token::HexIntLiteral(v) => Some(SpecOptionValue::Hex(v)),
        Token::FloatLiteral => Some(SpecOptionValue::Float(x.value)),
        _ => None,
    }
}

/// `syntax = "proto2";` or `syntax = "proto3";`
pub open spec fn spec_syntax(t: Seq<SpecToken>, p: int) -> SpecResult<Syntax> {
    if p >= t.len() {
        Err((eof(loc0()), p))
    } else if !((t[p].token == Token::Identifier && t[p].value == "syntax"@) || t[p].token
        == Token::Syntax) {
        Err((found("Expected 'syntax', found "@, t[p]), p + 1))
    } else {
        match want(t, p + 1, Token::Equals, t[p].location, "Expected '=', found "@) {
            Err(e) => Err(e),
            Ok(p2) => {
                if p2 >= t.len() {
                    Err((eof(t[p + 1].location), p2))
                } else {
                    let v = t[p2];
                    let syn = if v.token == Token::StringLiteral && v.value == "proto2"@ {
                        Some(Syntax::Proto2)
                    } else if v.token == Token::StringLiteral && v.value == "proto3"@ {
                        Some(Syntax::Proto3)
                    } else {
                        None
                    };
                    match syn {
                        None => Err(
                            (
                                SpecParseError::InvalidSyntax(
                                    "Expected \"proto2\" or \"proto3\""@,
                                    v.location,
                                ),
                                p2 + 1,
                            ),
                        ),
                        Some(s) => match peek_want(
                            t,
                            p2 + 1,
                            Token::Semicolon,
                            v.location,
                            "Expected ';', found "@,
                        ) {
                            Err(e) => Err(e),
                            Ok(p3) => Ok((s, p3)),
                        },
                    }
                }
            },
        }
    }
}

/// The rest of a dotted package name, from position `q`; `name` is what was read.
pub open spec fn spec_package_name(t: Seq<SpecToken>, q: int, name: Seq<char>, l: Location) -> SpecResult<
    Seq<char>,
>
    decreases t.len() - q,
{
    if q >= t.len() {
        Ok((name, q))
    } else if t[q].token == Token::Dot {
        if kind_at(t, q + 1, Token::Identifier) {
            spec_package_name(t, q + 2, name.push('.') + t[q + 1].value, l)
        } else {
            Err(
                (
                    SpecParseError::UnexpectedToken(
                        "Expected identifier after dot in package name"@,
                        l,
                    ),
                    if q + 1 < t.len() {
                        q + 2
                    } else {
                        q + 1
                    },
                ),
            )
        }
    } else if t[q].token == Token::Semicolon {
        Ok((name, q))
    } else {
        Err(
            (
                SpecParseError::UnexpectedToken(
                    "Unexpected token in package name: "@ + token_debug(t[q]),
                    l,
                ),
                q,
            ),
        )
    }
}

/// `package a.b.c;`
pub open spec fn spec_package(t: Seq<SpecToken>, p: int) -> SpecResult<Seq<char>> {
    match expect_at(t, p, Token::Package, loc0()) {
        Err(e) => Err(e),
        Ok(p1) => {
            let l = t[p].location;
            if p1 >= t.len() {
                Err((eof(l), p1))
            } else if t[p1].token != Token::Identifier {
                Err((found("Expected package name, found "@, t[p1]), p1 + 1))
            } else {
                match spec_package_name(t, p1 + 1, t[p1].value, l) {
                    Err(e) => Err(e),
                    Ok((name, q)) => match expect_at(t, q, Token::Semicolon, l) {
                        Err(e) => Err(e),
                        Ok(q2) => Ok((name, q2)),
                    },
                }
            }
        },
    }
}

/// `import "path";`, `import public "path";`, `import weak "path";`
pub open spec fn spec_import(t: Seq<SpecToken>, p: int) -> SpecResult<SpecImport> {
    if p >= t.len() {
        Err((eof(loc0()), p))
    } else if t[p].token != Token::Import {
        Err((found("Expected 'import', found "@, t[p]), p + 1))
    } else {
        let l = t[p].location;
        if p + 1 >= t.len() {
            Err((eof(l), p + 1))
        } else {
            let (kind, p2) = if t[p + 1].token == Token::Public {
                (ImportKind::Public, p + 2)
            } else if t[p + 1].token == Token::Weak {
                (ImportKind::Weak, p + 2)
            } else {
                (ImportKind::Default, p + 1)
            };
            if p2 >= t.len() {
                Err((eof(l), p2))
            } else if t[p2].token != Token::StringLiteral {
                Err(
                    (
                        found(
                            "Expected string literal or identifier for import path, found "@,
                            t[p2],
                        ),
                        p2 + 1,
                    ),
                )
            } else {
                match want(t, p2 + 1, Token::Semicolon, t[p2].location, "Expected ';', found "@) {
                    Err(e) => Err(e),
                    Ok(p3) => Ok((SpecImport { path: t[p2].value, kind }, p3)),
                }
            }
        }
    }
}

/// A message: `message Name { ... }`.
pub open spec fn spec_message(t: Seq<SpecToken>, p: int) -> SpecResult<SpecMessage>
    decreases t.len() - p, 0int,
{
    if p < 0 || p >= t.len() {
        Err((eof(loc0()), p))
    } else if t[p].token != Token::Message {
        Err((found("Expected 'message', found "@, t[p]), p + 1))
    } else if p + 1 >= t.len() {
        Err((eof(t[p].location), p + 1))
    } else if t[p + 1].token != Token::Identifier {
        Err((found("Expected message name, found "@, t[p + 1]), p + 2))
    } else if p + 2 >= t.len() {
        Err((eof(t[p + 1].location), p + 2))
    } else if t[p + 2].token != Token::OpenBrace {
        Err((found("Expected '{', found "@, t[p + 2]), p + 3))
    } else {
        spec_message_body(t, p + 3, empty_message(t[p + 1].value), t[p + 2].location)
    }
}

/// The body of a message from position `q`, up to and with its closing
/// brace; `m` is what was read of the message; `ob` is where the body opened.
pub open spec fn spec_message_body(t: Seq<SpecToken>, q: int, m: SpecMessage, ob: Location) -> SpecResult<
    SpecMessage,
>
    decreases t.len() - q, 1int,
{
    if q < 0 || q >= t.len() {
        Err((eof(ob), q))
    } else {
        let q1 = skip_comments(t, q);
        proof {
            lemma_skip_comments(t, q);
        }
        if q1 >= t.len() {
            Err((eof(ob), q1))
        } else {
            let k = t[q1].token;
            if k == Token::CloseBrace {
                Ok((m, q1 + 1))
            } else if k == Token::Message {
                match spec_message(t, q1) {
                    Err(e) => Err(e),
                    Ok((nm, q2)) => if q1 < q2 <= t.len() {
                        spec_message_body(
                            t,
                            q2,
                            SpecMessage { nested_messages: m.nested_messages.push(nm), ..m },
                            ob,
                        )
                    } else {
                        Err((eof(ob), q2))
                    },
                }
            } else if k == Token::Enum {
                match spec_enum(t, q1) {
                    Err(e) => Err(e),
                    Ok((en, q2)) => if q1 < q2 <= t.len() {
                        spec_message_body(
                            t,
                            q2,
                            SpecMessage { nested_enums: m.nested_enums.push(en), ..m },
                            ob,
                        )
                    } else {
                        Err((eof(ob), q2))
                    },
                }
            } else if k == Token::Option {
                match spec_option(t, q1) {
                    Err(e) => Err(e),
                    Ok((o, q2)) => if q1 < q2 <= t.len() {
                        spec_message_body(
                            t,
                            q2,
                            SpecMessage { options: m.options.push(o), ..m },
                            ob,
                        )
                    } else {
                        Err((eof(ob), q2))
                    },
                }
            } else if k == Token::Reserved {
                let (rs, res) = spec_reserved(t, q1);
                match res {
                    Err(e) => Err(e),
                    Ok(q2) => if q1 < q2 <= t.len() {
                        spec_message_body(
                            t,
                            q2,
                            SpecMessage { reserved: m.reserved + rs, ..m },
                            ob,
                        )
                    } else {
                        Err((eof(ob), q2))
                    },
                }
            } else if k == Token::Oneof {
                match spec_oneof(t, q1) {
                    Err(e) => Err(e),
                    Ok((o, q2)) => if q1 < q2 <= t.len() {
                        spec_message_body(
                            t,
                            q2,
                            SpecMessage { oneofs: m.oneofs.push(o), ..m },
                            ob,
                        )
                    } else {
                        Err((eof(ob), q2))
                    },
                }
            } else {
                match spec_field(t, q1) {
                    Err(e) => Err(e),
                    Ok((f, q2)) => if q1 < q2 <= t.len() {
                        spec_message_body(
                            t,
                            q2,
                            SpecMessage { fields: m.fields.push(f), ..m },
                            ob,
                        )
                    } else {
                        Err((eof(ob), q2))
                    },
                }
            }
        }
    }
}

/// `oneof name { fields }`
pub open spec fn spec_oneof(t: Seq<SpecToken>, p: int) -> SpecResult<SpecOneOf> {
    match expect_at(t, p, Token::Oneof, loc0()) {
        Err(e) => Err(e),
        Ok(p1) => match spec_identifier(t, p1) {
            Err(e) => Err(e),
            Ok((name, p2)) => match expect_at(t, p2, Token::OpenBrace, loc0()) {
                Err(e) => Err(e),
                Ok(p3) => spec_oneof_body(t, p3, SpecOneOf { name, fields: Seq::empty() }),
            },
        },
    }
}

/// The fields of a oneof from position `q`, up to and with its closing brace;
/// an end of input before it is an error.
pub open spec fn spec_oneof_body(t: Seq<SpecToken>, q: int, o: SpecOneOf) -> SpecResult<SpecOneOf>
    decreases t.len() - q,
{
    if q >= t.len() {
        Err((eof(loc0()), q))
    } else if t[q].token == Token::CloseBrace {
        Ok((o, q + 1))
    } else {
        match spec_field(t, q) {
            Err(e) => Err(e),
            Ok((f, q2)) => if q < q2 <= t.len() {
                spec_oneof_body(t, q2, SpecOneOf { fields: o.fields.push(f), ..o })
            } else {
                Err((eof(loc0()), q2))
            },
        }
    }
}

/// An identifier.
pub open spec fn spec_identifier(t: Seq<SpecToken>, p: int) -> SpecResult<Seq<char>> {
    if p >= t.len() {
        Err((eof(loc0()), p))
    } else if t[p].token == Token::Identifier {
        Ok((t[p].value, p + 1))
    } else {
        Err((found("Expected identifier, found "@, t[p]), p + 1))
    }
}

/// A field: `[repeated|required] type name = number;` or
/// `[repeated|required] map<key, value> name = number;`
pub open spec fn spec_field(t: Seq<SpecToken>, p: int) -> SpecResult<SpecField> {
    let start = if 0 <= p < t.len() {
        t[p].location
    } else {
        loc0()
    };
    let q0 = skip_comments(t, p);
    let (label, q1) = if kind_at(t, q0, Token::Repeated) {
        (FieldLabel::Repeated, q0 + 1)
    } else if kind_at(t, q0, Token::Required) {
        (FieldLabel::Required, q0 + 1)
    } else {
        (FieldLabel::Optional, q0)
    };
    let q2 = skip_comments(t, q1);
    let typed: SpecResult<(SpecFieldType, Seq<char>)> = if kind_at(t, q2, Token::MapKeyword) {
        spec_map_field(t, q2 + 1)
    } else if q2 >= t.len() {
        Err((eof(start), q2))
    } else {
        match spec_field_type(t[q2]) {
            Err(e) => Err((e, q2 + 1)),
            Ok(ty) => match spec_field_name(t, q2 + 1) {
                Err(e) => Err(e),
                Ok((name, q3)) => Ok(((ty, name), q3)),
            },
        }
    };
    match typed {
        Err(e) => Err(e),
        Ok(((ty, name), q3)) => match expect_at(t, q3, Token::Equals, start) {
            Err(e) => Err(e),
            Ok(q4) => if q4 >= t.len() {
                Err((eof(start), q4))
            } else {
                match number_of(t[q4]) {
                    None => Err((found("Expected field number, found "@, t[q4]), q4 + 1)),
                    Some(number) => match expect_at(t, q4 + 1, Token::Semicolon, start) {
                        Err(e) => Err(e),
                        Ok(q5) => Ok(
                            (
                                SpecField { name, number, label, typ: ty, options: Seq::empty() },
                                q5,
                            ),
                        ),
                    },
                }
            },
        },
    }
}

/// The state of reading a field name: whether a part was read, the name so
/// far, the position, and the location of the last token looked at.
pub open spec fn spec_field_name_loop(
    t: Seq<SpecToken>,
    q: int,
    started: bool,
    name: Seq<char>,
    l: Location,
) -> (bool, Seq<char>, int, Location)
    decreases t.len() - q,
{
    if q < 0 || q >= t.len() {
        (started, name, q, l)
    } else {
        let x = t[q];
        if x.token == Token::Identifier {
            let name2 = if started {
                name.push('_') + x.value
            } else {
                x.value
            };
            spec_field_name_loop(t, q + 1, true, name2, x.location)
        } else if x.token == Token::Message && !started {
            spec_field_name_loop(t, q + 1, true, "message"@, x.location)
        } else if x.token == Token::MapKeyword && !started {
            spec_field_name_loop(t, q + 1, true, "map"@, x.location)
        } else if x.token == Token::Repeated && !started {
            spec_field_name_loop(t, q + 1, true, "repeated"@, x.location)
        } else {
            (started, name, q, x.location)
        }
    }
}

/// A field name: the identifiers that follow, joined by `_`; the keywords
/// `message`, `map` and `repeated` may begin it. It must be followed by `=`
/// or by the keyword `message`, which is left unread.
pub open spec fn spec_field_name(t: Seq<SpecToken>, p: int) -> SpecResult<Seq<char>> {
    let (started, name, q, l) = spec_field_name_loop(t, p, false, Seq::empty(), loc0());
    if !started {
        Err((SpecParseError::MissingIdentifier("Expected field name"@, l), q))
    } else if q >= t.len() {
        Err((eof(l), q))
    } else if t[q].token != Token::Equals && t[q].token != Token::Message {
        Err((found(expected_prefix(Token::Equals), t[q]), q))
    } else {
        Ok((name, q))
    }
}

/// An enum: `enum Name { values and options }`.
pub open spec fn spec_enum(t: Seq<SpecToken>, p: int) -> SpecResult<SpecEnum> {
    if p >= t.len() {
        Err((eof(loc0()), p))
    } else if t[p].token != Token::Enum {
        Err((found("Expected 'enum', found "@, t[p]), p + 1))
    } else if p + 1 >= t.len() {
        Err((eof(t[p].location), p + 1))
    } else if t[p + 1].token != Token::Identifier {
        Err((found("Expected enum name, found "@, t[p + 1]), p + 2))
    } else if p + 2 >= t.len() {
        Err((eof(t[p + 1].location), p + 2))
    } else if t[p + 2].token != Token::OpenBrace {
        Err((found("Expected '{', found "@, t[p + 2]), p + 3))
    } else {
        spec_enum_body(t, p + 3, empty_enum(t[p + 1].value), t[p + 2].location)
    }
}

/// The body of an enum from position `q`, up to and with its closing brace.
pub open spec fn spec_enum_body(t: Seq<SpecToken>, q: int, e: SpecEnum, ob: Location) -> SpecResult<
    SpecEnum,
>
    decreases t.len() - q,
{
    if q >= t.len() {
        Err((eof(ob), q))
    } else {
        let x = t[q];
        if x.token == Token::CloseBrace {
            Ok((e, q + 1))
        } else if x.token == Token::Identifier {
            match spec_enum_value(t, q) {
                Err(err) => Err(err),
                Ok((v, q2)) => if q < q2 <= t.len() {
                    spec_enum_body(t, q2, SpecEnum { values: e.values.push(v), ..e }, ob)
                } else {
                    Err((eof(ob), q2))
                },
            }
        } else if x.token == Token::Option {
            match spec_enum_option(t, q) {
                Err(err) => Err(err),
                Ok((o, q2)) => if q < q2 <= t.len() {
                    spec_enum_body(t, q2, SpecEnum { options: e.options.push(o), ..e }, ob)
                } else {
                    Err((eof(ob), q2))
                },
            }
        } else {
            Err((found("Unexpected token in enum body: "@, x), q))
        }
    }
}

/// An enum option: `option name = value;`
pub open spec fn spec_enum_option(t: Seq<SpecToken>, p: int) -> SpecResult<SpecEnumValueOption> {
    match expect_at(t, p, Token::Option, loc0()) {
        Err(e) => Err(e),
        Ok(p1) => if p1 >= t.len() {
            Err((eof(t[p].location), p1))
        } else if t[p1].token != Token::Identifier {
            Err((found("Expected option name, found "@, t[p1]), p1 + 1))
        } else {
            let nl = t[p1].location;
            match expect_at(t, p1 + 1, Token::Equals, nl) {
                Err(e) => Err(e),
                Ok(p2) => if p2 >= t.len() {
                    Err((eof(nl), p2))
                } else {
                    match enum_option_value_of(t[p2]) {
                        None => Err((found("Expected option value, found "@, t[p2]), p2 + 1)),
                        Some(v) => match expect_at(t, p2 + 1, Token::Semicolon, t[p2].location) {
                            Err(e) => Err(e),
                            Ok(p3) => Ok((SpecEnumValueOption { name: t[p1].value, value: v }, p3)),
                        },
                    }
                },
            }
        },
    }
}

/// An enum value: `NAME = number [options];`
pub open spec fn spec_enum_value(t: Seq<SpecToken>, p: int) -> SpecResult<SpecEnumValue> {
    if p >= t.len() {
        Err((eof(loc0()), p))
    } else if t[p].token != Token::Identifier {
        Err((found("Expected enum value name, found "@, t[p]), p + 1))
    } else {
        match want(t, p + 1, Token::Equals, t[p].location, "Expected '=', found "@) {
            Err(e) => Err(e),
            Ok(p2) => if p2 >= t.len() {
                Err((eof(t[p + 1].location), p2))
            } else {
                match number_of(t[p2]) {
                    None => Err((found("Expected integer, found "@, t[p2]), p2 + 1)),
                    Some(number) => {
                        let nl = t[p2].location;
                        let opts: SpecResult<Seq<SpecEnumValueOption>> = if kind_at(
                            t,
                            p2 + 1,
                            Token::OpenBracket,
                        ) {
                            spec_enum_value_options(t, p2 + 2, Seq::empty(), nl)
                        } else {
                            Ok((Seq::empty(), p2 + 1))
                        };
                        match opts {
                            Err(e) => Err(e),
                            Ok((options, q)) => match want(
                                t,
                                q,
                                Token::Semicolon,
                                nl,
                                "Expected ';', found "@,
                            ) {
                                Err(e) => Err(e),
                                Ok(q2) => Ok(
                                    (SpecEnumValue { name: t[p].value, number, options }, q2),
                                ),
                            },
                        }
                    },
                }
            },
        }
    }
}

/// The options of an enum value from position `q` (after `[`), up to and
/// with the closing bracket; `opts` is what was read.
pub open spec fn spec_enum_value_options(
    t: Seq<SpecToken>,
    q: int,
    opts: Seq<SpecEnumValueOption>,
    nl: Location,
) -> SpecResult<Seq<SpecEnumValueOption>>
    decreases t.len() - q,
{
    match spec_enum_value_option(t, q) {
        Err(e) => Err(e),
        Ok((o, q2)) => {
            let opts2 = opts.push(o);
            if q2 >= t.len() {
                Err((eof(nl), q2))
            } else if t[q2].token == Token::Comma {
                if q < q2 {
                    spec_enum_value_options(t, q2 + 1, opts2, nl)
                } else {
                    Err((eof(nl), q2))
                }
            } else if t[q2].token == Token::CloseBracket {
                Ok((opts2, q2 + 1))
            } else {
                Err((found("Expected ',' or ']', found "@, t[q2]), q2))
            }
        },
    }
}

/// One option of an enum value: `name = value`.
pub open spec fn spec_enum_value_option(t: Seq<SpecToken>, p: int) -> SpecResult<
    SpecEnumValueOption,
> {
    if p >= t.len() {
        Err((eof(loc0()), p))
    } else if t[p].token != Token::Identifier {
        Err((found("Expected option name, found "@, t[p]), p + 1))
    } else {
        match want(t, p + 1, Token::Equals, t[p].location, "Expected '=', found "@) {
            Err(e) => Err(e),
            Ok(p2) => if p2 >= t.len() {
                Err((eof(t[p + 1].location), p2))
            } else {
                match enum_option_value_of(t[p2]) {
                    None => Err((found("Expected option value, found "@, t[p2]), p2 + 1)),
                    Some(v) => Ok((SpecEnumValueOption { name: t[p].value, value: v }, p2 + 1)),
                }
            },
        }
    }
}

/// A service: `service Name { rpcs and options }`.
pub open spec fn spec_service(t: Seq<SpecToken>, p: int) -> SpecResult<SpecService> {
    let q0 = skip_comments(t, p);
    match expect_at(t, q0, Token::Service, loc0()) {
        Err(e) => Err(e),
        Ok(q1) => match spec_identifier(t, skip_comments(t, q1)) {
            Err(e) => Err(e),
            Ok((name, q2)) => match expect_at(t, skip_comments(t, q2), Token::OpenBrace, loc0()) {
                Err(e) => Err(e),
                Ok(q3) => spec_service_body(
                    t,
                    q3,
                    SpecService { name, methods: Seq::empty(), options: Seq::empty() },
                ),
            },
        },
    }
}

/// The body of a service from position `q`, up to and with its closing brace.
pub open spec fn spec_service_body(t: Seq<SpecToken>, q: int, s: SpecService) -> SpecResult<
    SpecService,
>
    decreases t.len() - q,
{
    if q < 0 {
        Err((eof(loc0()), q))
    } else {
        let q1 = skip_comments(t, q);
        proof {
            lemma_skip_comments(t, q);
        }
        if q1 >= t.len() {
            Err((eof(loc0()), q1))
        } else {
            let x = t[q1];
            if x.token == Token::CloseBrace {
                Ok((s, q1 + 1))
            } else if x.token == Token::Rpc {
                match spec_method(t, q1) {
                    Err(e) => Err(e),
                    Ok((m, q2)) => if q1 < q2 <= t.len() {
                        spec_service_body(t, q2, SpecService { methods: s.methods.push(m), ..s })
                    } else {
                        Err((eof(loc0()), q2))
                    },
                }
            } else if x.token == Token::Option {
                match spec_option(t, q1) {
                    Err(e) => Err(e),
                    Ok((o, q2)) => if q1 < q2 <= t.len() {
                        spec_service_body(t, q2, SpecService { options: s.options.push(o), ..s })
                    } else {
                        Err((eof(loc0()), q2))
                    },
                }
            } else if x.token == Token::Comment {
                spec_service_body(t, q1 + 1, s)
            } else {
                Err((found("Unexpected token in service body: "@, x), q1))
            }
        }
    }
}

/// After an optional `stream` keyword at `q` (comments skipped): whether it
/// was there, and the position after it and the comments that follow.
pub open spec fn spec_stream(t: Seq<SpecToken>, q: int) -> (bool, int) {
    if kind_at(t, q, Token::Stream) {
        (true, skip_comments(t, q + 1))
    } else {
        (false, q)
    }
}

/// An rpc: `rpc Name ([stream] In) returns ([stream] Out)` followed by `;` or
/// by a block of options.
pub open spec fn spec_method(t: Seq<SpecToken>, p: int) -> SpecResult<SpecMethod> {
    match expect_at(t, skip_comments(t, p), Token::Rpc, loc0()) {
        Err(e) => Err(e),
        Ok(a1) => match spec_identifier(t, skip_comments(t, a1)) {
            Err(e) => Err(e),
            Ok((name, a2)) => match expect_at(t, skip_comments(t, a2), Token::OpenParen, loc0()) {
                Err(e) => Err(e),
                Ok(a3) => {
                    let (client_streaming, a4) = spec_stream(t, skip_comments(t, a3));
                    match spec_type(t, a4) {
                        Err(e) => Err(e),
                        Ok((input_type, a5)) => spec_method_rest(
                            t,
                            a5,
                            name,
                            client_streaming,
                            input_type,
                        ),
                    }
                },
            },
        },
    }
}

/// An rpc after its input type: `) returns ([stream] Out)` and what follows.
pub open spec fn spec_method_rest(
    t: Seq<SpecToken>,
    a5: int,
    name: Seq<char>,
    client_streaming: bool,
    input_type: Seq<char>,
) -> SpecResult<SpecMethod> {
    match expect_at(t, skip_comments(t, a5), Token::CloseParen, loc0()) {
        Err(e) => Err(e),
        Ok(a6) => match expect_at(t, skip_comments(t, a6), Token::Returns, loc0()) {
            Err(e) => Err(e),
            Ok(a7) => match expect_at(t, skip_comments(t, a7), Token::OpenParen, loc0()) {
                Err(e) => Err(e),
                Ok(a8) => {
                    let (server_streaming, a9) = spec_stream(t, skip_comments(t, a8));
                    match spec_type(t, a9) {
                        Err(e) => Err(e),
                        Ok((output_type, a10)) => match expect_at(
                            t,
                            skip_comments(t, a10),
                            Token::CloseParen,
                            loc0(),
                        ) {
                            Err(e) => Err(e),
                            Ok(a11) => {
                                let a12 = skip_comments(t, a11);
                                let m = SpecMethod {
                                    name,
                                    input_type,
                                    output_type,
                                    client_streaming,
                                    server_streaming,
                                    options: Seq::empty(),
                                };
                                if a12 < 0 || a12 >= t.len() {
                                    Err((eof(loc0()), a12))
                                } else if t[a12].token == Token::OpenBrace {
                                    match spec_method_options(t, a12 + 1, Seq::empty()) {
                                        Err(e) => Err(e),
                                        Ok((options, a13)) => Ok(
                                            (SpecMethod { options, ..m }, a13),
                                        ),
                                    }
                                } else if t[a12].token == Token::Semicolon {
                                    Ok((m, a12 + 1))
                                } else {
                                    Err(
                                        (
                                            found(
                                                "Expected '{' or ';' after method definition, found "@,
                                                t[a12],
                                            ),
                                            a12,
                                        ),
                                    )
                                }
                            },
                        },
                    }
                },
            },
        },
    }
}

/// The options block of an rpc from position `q`, up to and with its
/// closing brace; an end of input before it is an error.
pub open spec fn spec_method_options(t: Seq<SpecToken>, q: int, opts: Seq<SpecProtoOption>) -> SpecResult<
    Seq<SpecProtoOption>,
>
    decreases t.len() - q,
{
    if q < 0 || q >= t.len() {
        Err((eof(loc0()), q))
    } else {
        let x = t[q];
        if x.token == Token::CloseBrace {
            Ok((opts, q + 1))
        } else if x.token == Token::Option {
            match spec_option(t, q) {
                Err(e) => Err(e),
                Ok((o, q2)) => if q < q2 <= t.len() {
                    proof {
                        lemma_skip_comments(t, q2);
                    }
                    spec_method_options(t, skip_comments(t, q2), opts.push(o))
                } else {
                    Err((eof(loc0()), q2))
                },
            }
        } else if x.token == Token::Comment {
            proof {
                lemma_skip_comments(t, q + 1);
            }
            spec_method_options(t, skip_comments(t, q + 1), opts)
        } else {
            Err((found("Unexpected token in method options: "@, x), q))
        }
    }
}

/// An option: `option name = value;`
pub open spec fn spec_option(t: Seq<SpecToken>, p: int) -> SpecResult<SpecProtoOption> {
    match expect_at(t, p, Token::Option, loc0()) {
        Err(e) => Err(e),
        Ok(p1) => {
            let l = t[p].location;
            match spec_dotted_identifier(t, p1) {
                Err(e) => Err(e),
                Ok((name, p2)) => match expect_at(t, p2, Token::Equals, l) {
                    Err(e) => Err(e),
                    Ok(p3) => match spec_option_value(t, p3) {
                        Err(e) => Err(e),
                        Ok((value, p4)) => match expect_at(t, p4, Token::Semicolon, l) {
                            Err(e) => Err(e),
                            Ok(p5) => Ok((SpecProtoOption { name, value }, p5)),
                        },
                    },
                },
            }
        },
    }
}

/// The state of reading a dotted identifier: the name so far (`None` before
/// the first part) and the position where reading stopped.
pub open spec fn spec_dotted_loop(t: Seq<SpecToken>, q: int, name: Option<Seq<char>>) -> Result<
    (Option<Seq<char>>, int),
    SpecFail,
>
    decreases t.len() - q,
{
    if q < 0 || q >= t.len() {
        Ok((name, q))
    } else {
        let x = t[q];
        if x.token == Token::Identifier {
            let name2 = match name {
                Some(n) => n.push('.') + x.value,
                None => x.value,
            };
            spec_dotted_loop(t, q + 1, Some(name2))
        } else if x.token == Token::Dot {
            if name is None {
                Err(
                    (
                        SpecParseError::UnexpectedToken(
                            "Unexpected dot at the beginning of identifier"@,
                            x.location,
                        ),
                        q,
                    ),
                )
            } else {
                spec_dotted_loop(t, q + 1, name)
            }
        } else {
            Ok((name, q))
        }
    }
}

/// A name made of identifiers, joined by `.`.
pub open spec fn spec_dotted_identifier(t: Seq<SpecToken>, p: int) -> SpecResult<Seq<char>> {
    match spec_dotted_loop(t, p, None) {
        Err(e) => Err(e),
        Ok((None, q)) => Err(
            (
                eof(
                    if 0 <= q < t.len() {
                        t[q].location
                    } else {
                        loc0()
                    },
                ),
                q,
            ),
        ),
        Ok((Some(name), q)) => Ok((name, q)),
    }
}

/// The value of an option.
pub open spec fn spec_option_value(t: Seq<SpecToken>, p: int) -> SpecResult<SpecOptionValue> {
    if p >= t.len() {
        Err((eof(loc0()), p))
    } else {
        match option_value_of(t[p]) {
            Some(v) => Ok((v, p + 1)),
            None => Err((found("Expected option value, found "@, t[p]), p + 1)),
        }
    }
}

/// The type that a type token names.
pub open spec fn spec_field_type(x: SpecToken) -> Result<SpecFieldType, SpecParseError> {
    if x.token == Token::Identifier {
        let v = x.value;
        Ok(
            if v == "double"@ {
                SpecFieldType::Double
            } else if v == "float"@ {
                SpecFieldType::Float
            } else if v == "int32"@ {
                SpecFieldType::Int32
            } else if v == "int64"@ {
                SpecFieldType::Int64
            } else if v == "uint32"@ {
                SpecFieldType::UInt32
            } else if v == "uint64"@ {
                SpecFieldType::UInt64
            } else if v == "sint32"@ {
                SpecFieldType::SInt32
            } else if v == "sint64"@ {
                SpecFieldType::SInt64
            } else if v == "fixed32"@ {
                SpecFieldType::Fixed32
            } else if v == "fixed64"@ {
                SpecFieldType::Fixed64
            } else if v == "sfixed32"@ {
                SpecFieldType::SFixed32
            } else if v == "sfixed64"@ {
                SpecFieldType::SFixed64
            } else if v == "bool"@ {
                SpecFieldType::Bool
            } else if v == "bytes"@ {
                SpecFieldType::Bytes
            } else {
                SpecFieldType::MessageOrEnum(v)
            },
        )
    } else if x.token == Token::StringType {
        Ok(SpecFieldType::String)
    } else {
        Err(found("Expected field type, found "@, x))
    }
}

/// The state of reading a type name: the name so far, whether no
/// identifier was read yet, whether the last token was a dot, and the
/// position. Each dot between two parts stands for one `.` in the name; two
/// parts with no dot between them are joined by one `.` too.
pub open spec fn spec_type_loop(
    t: Seq<SpecToken>,
    q: int,
    name: Seq<char>,
    first: bool,
    dot: bool,
) -> SpecResult<Seq<char>>
    decreases t.len() - q,
{
    if q < 0 {
        Ok((name, q))
    } else {
        let q1 = skip_comments(t, q);
        proof {
            lemma_skip_comments(t, q);
        }
        if q1 >= t.len() {
            Ok((name, q1))
        } else {
            let x = t[q1];
            let sep = if first || dot {
                name
            } else {
                name.push('.')
            };
            if x.token == Token::Identifier {
                spec_type_loop(t, q1 + 1, sep + x.value, false, false)
            } else if x.token == Token::Dot {
                if first {
                    Err(
                        (
                            SpecParseError::UnexpectedToken(
                                "Unexpected dot at the beginning of type name"@,
                                x.location,
                            ),
                            q1,
                        ),
                    )
                } else {
                    spec_type_loop(t, q1 + 1, name.push('.'), first, true)
                }
            } else if x.token == Token::Rpc {
                spec_type_loop(t, q1 + 1, sep + "rpc"@, first, false)
            } else if x.token == Token::CloseParen {
                Ok((name, q1))
            } else {
                Err((found("Unexpected token in type name: "@, x), q1))
            }
        }
    }
}

/// A type name in an rpc.
pub open spec fn spec_type(t: Seq<SpecToken>, p: int) -> SpecResult<Seq<char>> {
    match spec_type_loop(t, p, Seq::empty(), true, false) {
        Err(e) => Err(e),
        Ok((name, q)) => if name.len() == 0 {
            Err((eof(loc0()), q))
        } else {
            Ok((name, q))
        },
    }
}

/// Whether a token kind is an integer literal.
pub open spec fn is_int_literal(k: Token) -> bool {
    match k {
        Token::DecimalIntLiteral(_) | Token::HexIntLiteral(_) | Token::OctalIntLiteral(_) => true,
        _ => false,
    }
}

/// A map field after the `map` keyword: `<key, value> name`, which must be
/// followed by `=` and an integer literal; those are left unread.
pub open spec fn spec_map_field(t: Seq<SpecToken>, p: int) -> SpecResult<(SpecFieldType, Seq<char>)> {
    match expect_at(t, p, Token::LessThan, loc0()) {
        Err(e) => Err(e),
        Ok(p1) => if p1 >= t.len() {
            Err((eof(loc0()), p1))
        } else {
            match spec_field_type(t[p1]) {
                Err(e) => Err((e, p1 + 1)),
                Ok(key) => match expect_at(t, p1 + 1, Token::Comma, loc0()) {
                    Err(e) => Err(e),
                    Ok(p2) => if p2 >= t.len() {
                        Err((eof(loc0()), p2))
                    } else {
                        match spec_field_type(t[p2]) {
                            Err(e) => Err((e, p2 + 1)),
                            Ok(value) => match expect_at(t, p2 + 1, Token::GreaterThan, loc0()) {
                                Err(e) => Err(e),
                                Ok(p3) => match spec_field_name(t, p3) {
                                    Err(e) => Err(e),
                                    Ok((name, p4)) => if p4 + 1 >= t.len() {
                                        Err((eof(t[p4].location), p4))
                                    } else if !is_int_literal(t[p4 + 1].token) {
                                        Err((found("Expected integer field number, found "@, t[p4 + 1]), p4))
                                    } else {
                                        Ok(
                                        (
                                            (
                                                SpecFieldType::MapOf(
                                                    Box::new(key),
                                                    Box::new(value),
                                                ),
                                                name,
                                            ),
                                            p4,
                                        ),
                                    )
                                    },
                                },
                            },
                        }
                    },
                },
            }
        },
    }
}

/// Whether a number fits in an `i32`.
pub open spec fn fits_i32(v: i64) -> bool {
    i32::MIN <= v <= i32::MAX
}

/// The items of a `reserved` statement from position `q`, up to and with its
/// semicolon; `items` is what was read; `last` is where the last item was.
/// Gives the items read, also where an error stops the reading, and the
/// position after the statement or the error and the position where it
/// stopped.
pub open spec fn spec_reserved_loop(
    t: Seq<SpecToken>,
    q: int,
    items: Seq<SpecReserved>,
    last: Location,
) -> (Seq<SpecReserved>, SpecStep)
    decreases t.len() - q,
{
    if q < 0 || q >= t.len() {
        (items, Err((eof(last), q)))
    } else {
        let x = t[q];
        match x.token {
            Token::DecimalIntLiteral(s) => {
                let start = s as i32;
                if !fits_i32(s) {
                    (items, Err((SpecParseError::InvalidNumber(x.value, x.location), q + 1)))
                } else if kind_at(t, q + 1, Token::To) {
                    if q + 2 < t.len() {
                        match t[q + 2].token {
                            Token::DecimalIntLiteral(e) => {
                                let end = e as i32;
                                if !fits_i32(e) {
                                    (
                                        items,
                                        Err(
                                            (
                                                SpecParseError::InvalidNumber(
                                                    t[q + 2].value,
                                                    t[q + 2].location,
                                                ),
                                                q + 3,
                                            ),
                                        ),
                                    )
                                } else if start <= end {
                                    spec_reserved_loop(
                                        t,
                                        q + 3,
                                        items.push(SpecReserved::Range(start, end)),
                                        x.location,
                                    )
                                } else {
                                    (
                                        items,
                                        Err((SpecParseError::InvalidRange(start, end, x.location), q + 3)),
                                    )
                                }
                            },
                            _ => (items, Err((eof(last), q + 3))),
                        }
                    } else {
                        (items, Err((eof(last), q + 2)))
                    }
                } else {
                    spec_reserved_loop(
                        t,
                        q + 1,
                        items.push(SpecReserved::Number(start)),
                        x.location,
                    )
                }
            },
            Token::StringLiteral => spec_reserved_loop(
                t,
                q + 1,
                items.push(SpecReserved::FieldName(x.value)),
                x.location,
            ),
            Token::Semicolon => (items, Ok(q + 1)),
            Token::Comma => spec_reserved_loop(t, q + 1, items, last),
            _ => (items, Err((found("Unexpected token in reserved: "@, x), q + 1))),
        }
    }
}

/// `reserved 1, 2, 5 to 9, "name";`, where a number that does not fit in an
/// `i32` is an invalid number: the items read, and where reading
/// ended or the error that stopped it.
pub open spec fn spec_reserved(t: Seq<SpecToken>, p: int) -> (Seq<SpecReserved>, SpecStep) {
    match expect_at(t, p, Token::Reserved, loc0()) {
        Err(e) => (Seq::empty(), Err(e)),
        Ok(p1) => spec_reserved_loop(t, p1, Seq::empty(), t[p].location),
    }
}

/// Package declarations (and comments) from position `q`; the last one wins.
pub open spec fn spec_packages(t: Seq<SpecToken>, q: int, pkg: Option<Seq<char>>) -> SpecResult<
    Option<Seq<char>>,
>
    decreases t.len() - q,
{
    if q < 0 || q >= t.len() {
        Ok((pkg, q))
    } else if t[q].token == Token::Package {
        match spec_package(t, q) {
            Err(e) => Err(e),
            Ok((name, q2)) => if q < q2 <= t.len() {
                spec_packages(t, q2, Some(name))
            } else {
                Err((eof(loc0()), q2))
            },
        }
    } else if t[q].token == Token::Comment {
        spec_packages(t, q + 1, pkg)
    } else {
        Ok((pkg, q))
    }
}

/// Import statements (and comments) from position `q`.
pub open spec fn spec_imports(t: Seq<SpecToken>, q: int, imports: Seq<SpecImport>) -> SpecResult<
    Seq<SpecImport>,
>
    decreases t.len() - q,
{
    if q < 0 || q >= t.len() {
        Ok((imports, q))
    } else if t[q].token == Token::Import {
        match spec_import(t, q) {
            Err(e) => Err(e),
            Ok((i, q2)) => if q < q2 <= t.len() {
                spec_imports(t, q2, imports.push(i))
            } else {
                Err((eof(loc0()), q2))
            },
        }
    } else if t[q].token == Token::Comment {
        spec_imports(t, q + 1, imports)
    } else {
        Ok((imports, q))
    }
}

/// File options (and comments) from position `q`.
pub open spec fn spec_file_options(t: Seq<SpecToken>, q: int, opts: Seq<SpecProtoOption>) -> SpecResult<
    Seq<SpecProtoOption>,
>
    decreases t.len() - q,
{
    if q < 0 || q >= t.len() {
        Ok((opts, q))
    } else if t[q].token == Token::Option {
        match spec_option(t, q) {
            Err(e) => Err(e),
            Ok((o, q2)) => if q < q2 <= t.len() {
                spec_file_options(t, q2, opts.push(o))
            } else {
                Err((eof(loc0()), q2))
            },
        }
    } else if t[q].token == Token::Comment {
        spec_file_options(t, q + 1, opts)
    } else {
        Ok((opts, q))
    }
}

/// Messages, enums and services (and comments) from position `q` to the end.
pub open spec fn spec_top_level(t: Seq<SpecToken>, q: int, f: SpecProtoFile) -> Result<
    SpecProtoFile,
    SpecParseError,
>
    decreases t.len() - q,
{
    if q < 0 || q >= t.len() {
        Ok(f)
    } else {
        let x = t[q];
        let next: SpecResult<SpecProtoFile> = if x.token == Token::Message {
            match spec_message(t, q) {
                Err(e) => Err(e),
                Ok((m, q2)) => Ok((SpecProtoFile { messages: f.messages.push(m), ..f }, q2)),
            }
        } else if x.token == Token::Enum {
            match spec_enum(t, q) {
                Err(e) => Err(e),
                Ok((e, q2)) => Ok((SpecProtoFile { enums: f.enums.push(e), ..f }, q2)),
            }
        } else if x.token == Token::Service {
            match spec_service(t, q) {
                Err(e) => Err(e),
                Ok((s, q2)) => Ok((SpecProtoFile { services: f.services.push(s), ..f }, q2)),
            }
        } else if x.token == Token::Comment {
            Ok((f, q + 1))
        } else {
            Err((SpecParseError::UnexpectedToken(token_debug(x), x.location), q))
        };
        match next {
            Err((e, _)) => Err(e),
            Ok((f2, q2)) => if q < q2 <= t.len() {
                proof {
                    lemma_skip_comments(t, q2);
                }
                spec_top_level(t, skip_comments(t, q2), f2)
            } else {
                Err(eof(loc0()))
            },
        }
    }
}

/// A whole file: the syntax statement, then package declarations, imports
/// and options, then messages, enums and services.
pub open spec fn spec_file(t: Seq<SpecToken>) -> Result<SpecProtoFile, SpecParseError> {
    match spec_syntax(t, skip_comments(t, 0)) {
        Err((e, _)) => Err(e),
        Ok((syntax, p1)) => match spec_packages(t, p1, None) {
            Err((e, _)) => Err(e),
            Ok((package, p2)) => match spec_imports(t, p2, Seq::empty()) {
                Err((e, _)) => Err(e),
                Ok((imports, p3)) => match spec_file_options(t, p3, Seq::empty()) {
                    Err((e, _)) => Err(e),
                    Ok((options, p4)) => spec_top_level(
                        t,
                        p4,
                        SpecProtoFile {
                            syntax,
                            package,
                            imports,
                            options,
                            messages: Seq::empty(),
                            enums: Seq::empty(),
                            services: Seq::empty(),
                        },
                    ),
                },
            },
        },
    }
}

/// The syntax tree of a Protobuf text, or the error that the lexer or the
/// parser reports.
pub open spec fn spec_parse_proto_file(s: Seq<char>) -> Result<SpecProtoFile, SpecParseError> {
    match spec_tokenize(s) {
        Err(e) => Err(e),
        Ok(t) => spec_file(t),
    }
}

} // verus!
