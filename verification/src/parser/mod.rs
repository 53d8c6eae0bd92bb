//! Parser for Protobuf files: the lexer, the syntax tree, and the parsing
//! of a token sequence into that tree.
//!
//! Each parsing function reads `tokens` from position `*pos`, moves `*pos`
//! past what it read, and is specified by the function of `grammar` with
//! the same name.
pub mod ast;
pub mod error;
pub mod general;
pub mod grammar;
pub mod lexer;
pub mod properties;
pub mod token;

use vstd::prelude::*;

use crate::parser::ast::{
    empty_file, lemma_messages_view_push, Enum, EnumValue, EnumValueOption, EnumValueOptionValue,
    Field, FieldLabel, FieldType, Import, ImportKind, Message, Method, NumberValue, OneOf,
    OptionValue, ProtoFile, ProtoOption, Reserved, Service, SpecEnumValueOption, SpecField,
    SpecImport, SpecProtoFile, SpecProtoOption, SpecReserved, Syntax,
};
use crate::parser::error::{loc0, Location};
use crate::parser::grammar::{
    at, expect_at, expected_prefix, fails, found, lemma_skip_comments, outcome, skip_comments,
    spec_dotted_identifier, spec_dotted_loop, spec_enum, spec_enum_body, spec_enum_option,
    spec_enum_value, spec_enum_value_option, spec_enum_value_options, spec_field, spec_field_name,
    spec_field_name_loop, spec_field_type, spec_file, spec_file_options, spec_identifier,
    spec_import, spec_imports, spec_map_field, spec_message, spec_message_body, spec_method,
    spec_method_options, spec_method_rest, spec_oneof, spec_oneof_body, spec_option,
    spec_option_value, spec_package, spec_package_name, spec_packages, spec_parse_proto_file,
    spec_reserved, spec_reserved_loop, spec_service, spec_service_body, spec_syntax,
    spec_top_level, spec_type, spec_type_loop, want, peek_want, SpecFail,
};
use crate::parser::token::tv;
use crate::text::{concat2, concat3, push_char, str_eq};

pub use crate::parser::error::{ParseError, ParseResult};
pub use crate::parser::lexer::tokenize;
pub use crate::parser::token::{Token, TokenWithLocation};

verus! {

pub proof fn lemma_map_push<A, B>(s: Seq<A>, x: A, f: spec_fn(A) -> B)
    ensures
        s.push(x).map_values(f) == s.map_values(f).push(f(x)),
{
    assert(s.push(x).map_values(f) =~= s.map_values(f).push(f(x)));
}

pub proof fn lemma_map_add<A, B>(s: Seq<A>, u: Seq<A>, f: spec_fn(A) -> B)
    ensures
        (s + u).map_values(f) == s.map_values(f) + u.map_values(f),
{
    assert((s + u).map_values(f) =~= s.map_values(f) + u.map_values(f));
}

fn unknown_location() -> (r: Location)
    ensures
        r == loc0(),
{
    Location::new(0, 0)
}

/// The error for an unexpected token: `prefix` followed by the token's
/// `Debug` form.
fn found_err(prefix: &str, tok: &TokenWithLocation) -> (e: ParseError)
    ensures
        e@ == found(prefix@, tok@),
{
    let text = tok.debug_text();
    ParseError::UnexpectedToken(concat2(prefix, text.as_str()), tok.location)
}

/// The error for a token that is not of the expected kind `k`.
fn expected_err(k: Token, tok: &TokenWithLocation) -> (e: ParseError)
    ensures
        e@ == found(expected_prefix(k), tok@),
{
    let name = k.debug_name();
    let prefix = concat3("Expected ", name.as_str(), ", found ");
    found_err(prefix.as_str(), tok)
}

/// Takes one token of kind `k` and gives back where it was; a token of
/// another kind is taken all the same.
fn want_token(
    tokens: &Vec<TokenWithLocation>,
    pos: &mut usize,
    k: Token,
    l: Location,
    prefix: &str,
) -> (r: Result<Location, ParseError>)
    ensures
        match r {
            Ok(loc) => {
                &&& want(tv(tokens@), *old(pos) as int, k, l, prefix@) == at(*final(pos) as int)
                &&& *old(pos) < tokens.len()
                &&& *final(pos) == *old(pos) + 1
                &&& loc == tokens@[*old(pos) as int].location
            },
            Err(e) => want(tv(tokens@), *old(pos) as int, k, l, prefix@) == fails(e@, *final(pos) as int),
        },
{
    if *pos >= tokens.len() {
        return Err(ParseError::UnexpectedEndOfInput(l));
    }
    let tok = &tokens[*pos];
    if tok.token == k {
        *pos = *pos + 1;
        Ok(tok.location)
    } else {
        *pos = *pos + 1;
        Err(found_err(prefix, tok))
    }
}

/// Looks at one token, which must be of kind `k`, and takes it only if it is;
/// gives back where it was.
fn peek_token(
    tokens: &Vec<TokenWithLocation>,
    pos: &mut usize,
    k: Token,
    l: Location,
    prefix: &str,
) -> (r: Result<Location, ParseError>)
    ensures
        match r {
            Ok(loc) => {
                &&& peek_want(tv(tokens@), *old(pos) as int, k, l, prefix@) == at(*final(pos) as int)
                &&& *old(pos) < tokens.len()
                &&& *final(pos) == *old(pos) + 1
                &&& loc == tokens@[*old(pos) as int].location
            },
            Err(e) => peek_want(tv(tokens@), *old(pos) as int, k, l, prefix@) == fails(e@, *final(pos) as int),
        },
{
    if *pos >= tokens.len() {
        return Err(ParseError::UnexpectedEndOfInput(l));
    }
    let tok = &tokens[*pos];
    if tok.token == k {
        *pos = *pos + 1;
        Ok(tok.location)
    } else {
        Err(found_err(prefix, tok))
    }
}

/// Takes one token of kind `k`, with the usual message, and gives back where
/// it was; a token of another kind is taken all the same.
fn expect_kind(tokens: &Vec<TokenWithLocation>, pos: &mut usize, k: Token, l: Location) -> (r:
    Result<Location, ParseError>)
    ensures
        match r {
            Ok(loc) => {
                &&& expect_at(tv(tokens@), *old(pos) as int, k, l) == at(*final(pos) as int)
                &&& *old(pos) < tokens.len()
                &&& *final(pos) == *old(pos) + 1
                &&& loc == tokens@[*old(pos) as int].location
            },
            Err(e) => expect_at(tv(tokens@), *old(pos) as int, k, l) == fails(e@, *final(pos) as int),
        },
{
    if *pos >= tokens.len() {
        return Err(ParseError::UnexpectedEndOfInput(l));
    }
    let tok = &tokens[*pos];
    if tok.token == k {
        *pos = *pos + 1;
        Ok(tok.location)
    } else {
        *pos = *pos + 1;
        Err(expected_err(k, tok))
    }
}

/// Moves `*pos` past any comments.
pub fn skip_comments_and_whitespace(tokens: &Vec<TokenWithLocation>, pos: &mut usize)
    ensures
        *final(pos) as int == skip_comments(tv(tokens@), *old(pos) as int),
        *old(pos) <= *final(pos),
        *old(pos) <= tokens.len() ==> *final(pos) <= tokens.len(),
{
    proof {
        lemma_skip_comments(tv(tokens@), *pos as int);
    }
    while *pos < tokens.len() && tokens[*pos].token == Token::Comment
        invariant
            *old(pos) <= *pos,
            *old(pos) <= tokens.len() ==> *pos <= tokens.len(),
            skip_comments(tv(tokens@), *pos as int) == skip_comments(tv(tokens@), *old(pos) as int),
        decreases tokens.len() - *pos,
    {
        *pos = *pos + 1;
    }
}

/// Takes a token of kind `k` (with the usual message, and the end of input
/// reported at an unknown place) and gives it back; a token of another kind
/// is taken all the same.
pub fn expect_token(tokens: &Vec<TokenWithLocation>, pos: &mut usize, expected: Token) -> (r: Result<
    TokenWithLocation,
    ParseError,
>)
    ensures
        match r {
            Ok(tok) => {
                &&& expect_at(tv(tokens@), *old(pos) as int, expected, loc0()) == at(*final(pos) as int)
                &&& tok@ == tokens@[*old(pos) as int]@
            },
            Err(e) => expect_at(tv(tokens@), *old(pos) as int, expected, loc0()) == fails(
                e@,
                *final(pos) as int,
            ),
        },
        r is Ok ==> *old(pos) < *final(pos) <= tokens.len(),
{
    if *pos < tokens.len() {
        let tok = &tokens[*pos];
        if tok.token == expected {
            *pos = *pos + 1;
            Ok(TokenWithLocation { token: tok.token, value: tok.value.clone(), location: tok.location })
        } else {
            *pos = *pos + 1;
            Err(expected_err(expected, tok))
        }
    } else {
        Err(ParseError::UnexpectedEndOfInput(unknown_location()))
    }
}

/// Takes an identifier and gives back its name; a token of another kind is
/// taken all the same.
pub fn expect_identifier(tokens: &Vec<TokenWithLocation>, pos: &mut usize) -> (r: Result<
    String,
    ParseError,
>)
    ensures
        outcome(r, *final(pos)) == spec_identifier(tv(tokens@), *old(pos) as int),
        r is Ok ==> *old(pos) < *final(pos) <= tokens.len(),
{
    if *pos < tokens.len() {
        let tok = &tokens[*pos];
        if tok.token == Token::Identifier {
            *pos = *pos + 1;
            Ok(tok.value.clone())
        } else {
            *pos = *pos + 1;
            Err(found_err("Expected identifier, found ", tok))
        }
    } else {
        Err(ParseError::UnexpectedEndOfInput(unknown_location()))
    }
}

/// Takes an identifier and gives back its name.
pub fn parse_identifier(tokens: &Vec<TokenWithLocation>, pos: &mut usize) -> (r: Result<
    String,
    ParseError,
>)
    ensures
        outcome(r, *final(pos)) == spec_identifier(tv(tokens@), *old(pos) as int),
        r is Ok ==> *old(pos) < *final(pos) <= tokens.len(),
{
    if *pos >= tokens.len() {
        return Err(ParseError::UnexpectedEndOfInput(unknown_location()));
    }
    let tok = &tokens[*pos];
    *pos = *pos + 1;
    match tok.token {
        Token::Identifier => Ok(tok.value.clone()),
        _ => Err(found_err("Expected identifier, found ", tok)),
    }
}

/// The type that a type token names.
pub fn parse_field_type(token: &TokenWithLocation) -> (r: Result<FieldType, ParseError>)
    ensures
        match r {
            Ok(ty) => spec_field_type(token@) == Ok::<_, crate::parser::error::SpecParseError>(ty@),
            Err(e) => spec_field_type(token@) == Err::<crate::parser::ast::SpecFieldType, _>(e@),
        },
{
    match token.token {
        Token::Identifier => {
            let v = token.value.as_str();
            let ty = if str_eq(v, "double") {
                FieldType::Double
            } else if str_eq(v, "float") {
                FieldType::Float
            } else if str_eq(v, "int32") {
                FieldType::Int32
            } else if str_eq(v, "int64") {
                FieldType::Int64
            } else if str_eq(v, "uint32") {
                FieldType::UInt32
            } else if str_eq(v, "uint64") {
                FieldType::UInt64
            } else if str_eq(v, "sint32") {
                FieldType::SInt32
            } else if str_eq(v, "sint64") {
                FieldType::SInt64
            } else if str_eq(v, "fixed32") {
                FieldType::Fixed32
            } else if str_eq(v, "fixed64") {
                FieldType::Fixed64
            } else if str_eq(v, "sfixed32") {
                FieldType::SFixed32
            } else if str_eq(v, "sfixed64") {
                FieldType::SFixed64
            } else if str_eq(v, "bool") {
                FieldType::Bool
            } else if str_eq(v, "bytes") {
                FieldType::Bytes
            } else {
                FieldType::MessageOrEnum(token.value.clone())
            };
            Ok(ty)
        },
        Token::StringType => Ok(FieldType::String),
        _ => Err(found_err("Expected field type, found ", token)),
    }
}

/// The models of a sequence of reserved items.
pub open spec fn reserved_view(s: Seq<Reserved>) -> Seq<SpecReserved> {
    s.map_values(|r: Reserved| r@)
}

/// The models of a sequence of options.
pub open spec fn options_view(s: Seq<ProtoOption>) -> Seq<SpecProtoOption> {
    s.map_values(|o: ProtoOption| o@)
}

/// Reads a field name: the identifiers that follow, joined by `_`; `=` or the
/// keyword `message` must follow it and is left unread.
pub fn parse_field_name(tokens: &Vec<TokenWithLocation>, pos: &mut usize) -> (r: Result<
    String,
    ParseError,
>)
    ensures
        outcome(r, *final(pos)) == spec_field_name(tv(tokens@), *old(pos) as int),
        r is Ok ==> *old(pos) < *final(pos) <= tokens.len(),
{
    let ghost t = tv(tokens@);
    let ghost p0 = *pos as int;
    let ghost target = spec_field_name_loop(t, p0, false, Seq::empty(), loc0());
    let mut started = false;
    let mut name = String::new();
    let mut location = unknown_location();
    let mut done = false;
    while !done && *pos < tokens.len()
        invariant
            t == tv(tokens@),
            p0 == *old(pos),
            target == spec_field_name_loop(t, p0, false, Seq::empty(), loc0()),
            p0 <= *pos,
            started ==> p0 < *pos <= tokens.len(),
            !started ==> name@ == Seq::<char>::empty(),
            !done ==> spec_field_name_loop(t, *pos as int, started, name@, location) == target,
            done ==> target == (started, name@, *pos as int, location),
        decreases tokens.len() - *pos, if done { 0int } else { 1int },
    {
        let tok = &tokens[*pos];
        location = tok.location;
        if tok.token == Token::Identifier {
            if started {
                push_char(&mut name, '_');
            }
            name.append(tok.value.as_str());
            started = true;
            *pos = *pos + 1;
        } else if tok.token == Token::Message && !started {
            name = String::from_str("message");
            started = true;
            *pos = *pos + 1;
        } else if tok.token == Token::MapKeyword && !started {
            name = String::from_str("map");
            started = true;
            *pos = *pos + 1;
        } else if tok.token == Token::Repeated && !started {
            name = String::from_str("repeated");
            started = true;
            *pos = *pos + 1;
        } else {
            done = true;
        }
    }
    if !started {
        return Err(ParseError::MissingIdentifier(String::from_str("Expected field name"), location));
    }
    if *pos >= tokens.len() {
        return Err(ParseError::UnexpectedEndOfInput(location));
    }
    if tokens[*pos].token != Token::Equals && tokens[*pos].token != Token::Message {
        return Err(expected_err(Token::Equals, &tokens[*pos]));
    }
    Ok(name)
}

/// Reads a name made of identifiers, joined by `.`.
pub fn parse_dotted_identifier(tokens: &Vec<TokenWithLocation>, pos: &mut usize) -> (r: Result<
    String,
    ParseError,
>)
    ensures
        outcome(r, *final(pos)) == spec_dotted_identifier(tv(tokens@), *old(pos) as int),
        r is Ok ==> *old(pos) < *final(pos) <= tokens.len(),
{
    let ghost t = tv(tokens@);
    let ghost p0 = *pos as int;
    let ghost target = spec_dotted_loop(t, p0, None);
    let mut started = false;
    let mut name = String::new();
    let mut done = false;
    while !done && *pos < tokens.len()
        invariant
            t == tv(tokens@),
            p0 == *old(pos),
            target == spec_dotted_loop(t, p0, None),
            p0 <= *pos,
            started ==> p0 < *pos <= tokens.len(),
            !started ==> name@ == Seq::<char>::empty(),
            !done ==> spec_dotted_loop(
                t,
                *pos as int,
                if started { Some(name@) } else { None },
            ) == target,
            done ==> target == Ok::<_, SpecFail>(
                (if started { Some(name@) } else { None }, *pos as int),
            ),
        decreases tokens.len() - *pos, if done { 0int } else { 1int },
    {
        let tok = &tokens[*pos];
        if tok.token == Token::Identifier {
            if started {
                push_char(&mut name, '.');
            }
            name.append(tok.value.as_str());
            started = true;
            *pos = *pos + 1;
        } else if tok.token == Token::Dot {
            if !started {
                return Err(
                    ParseError::UnexpectedToken(
                        String::from_str("Unexpected dot at the beginning of identifier"),
                        tok.location,
                    ),
                );
            }
            *pos = *pos + 1;
        } else {
            done = true;
        }
    }
    if !started {
        let l = if *pos < tokens.len() {
            tokens[*pos].location
        } else {
            unknown_location()
        };
        return Err(ParseError::UnexpectedEndOfInput(l));
    }
    Ok(name)
}

/// Reads the value of an option.
pub fn parse_option_value(tokens: &Vec<TokenWithLocation>, pos: &mut usize) -> (r: Result<
    OptionValue,
    ParseError,
>)
    ensures
        outcome(r, *final(pos)) == spec_option_value(tv(tokens@), *old(pos) as int),
        r is Ok ==> *old(pos) < *final(pos) <= tokens.len(),
{
    if *pos >= tokens.len() {
        return Err(ParseError::UnexpectedEndOfInput(unknown_location()));
    }
    let tok = &tokens[*pos];
    *pos = *pos + 1;
    match tok.token {
        Token::StringLiteral => Ok(OptionValue::String(tok.value.clone())),
        Token::Identifier => Ok(OptionValue::Identifier(tok.value.clone())),
        Token::DecimalIntLiteral(n) => Ok(OptionValue::DecimalInt(n)),
        Token::OctalIntLiteral(n) => Ok(OptionValue::Octal(n)),
        Token::HexIntLiteral(n) => Ok(OptionValue::Hex(n)),
        Token::FloatLiteral => Ok(OptionValue::Float(tok.value.clone())),
        _ => Err(found_err("Expected option value, found ", tok)),
    }
}

/// Reads a type name of an rpc.
pub fn parse_type(tokens: &Vec<TokenWithLocation>, pos: &mut usize) -> (r: Result<
    String,
    ParseError,
>)
    ensures
        outcome(r, *final(pos)) == spec_type(tv(tokens@), *old(pos) as int),
        r is Ok ==> *old(pos) < *final(pos) <= tokens.len(),
{
    let ghost t = tv(tokens@);
    let ghost p0 = *pos as int;
    let ghost target = spec_type_loop(t, p0, Seq::empty(), true, false);
    let mut name = String::new();
    let mut first = true;
    let mut dot = false;
    let mut done = false;
    while !done
        invariant
            t == tv(tokens@),
            p0 == *old(pos),
            target == spec_type_loop(t, p0, Seq::empty(), true, false),
            p0 <= *pos,
            name@.len() > 0 ==> p0 < *pos <= tokens.len(),
            !done ==> spec_type_loop(t, *pos as int, name@, first, dot) == target,
            done ==> target == Ok::<_, SpecFail>((name@, *pos as int)),
        decreases tokens.len() - *pos, if done { 0int } else { 1int },
    {
        proof {
            lemma_skip_comments(t, *pos as int);
        }
        skip_comments_and_whitespace(tokens, pos);
        if *pos >= tokens.len() {
            done = true;
        } else {
            let tok = &tokens[*pos];
            if tok.token == Token::Identifier {
                if !first && !dot {
                    push_char(&mut name, '.');
                }
                name.append(tok.value.as_str());
                first = false;
                dot = false;
                *pos = *pos + 1;
            } else if tok.token == Token::Dot {
                if first {
                    return Err(
                        ParseError::UnexpectedToken(
                            String::from_str("Unexpected dot at the beginning of type name"),
                            tok.location,
                        ),
                    );
                }
                push_char(&mut name, '.');
                dot = true;
                *pos = *pos + 1;
            } else if tok.token == Token::Rpc {
                if !first && !dot {
                    push_char(&mut name, '.');
                }
                name.append("rpc");
                dot = false;
                *pos = *pos + 1;
            } else if tok.token == Token::CloseParen {
                done = true;
            } else {
                return Err(found_err("Unexpected token in type name: ", tok));
            }
        }
    }
    if name.as_str().unicode_len() == 0 {
        return Err(ParseError::UnexpectedEndOfInput(unknown_location()));
    }
    Ok(name)
}

/// Reads a map field after the `map` keyword: `<key, value> name`, and checks
/// that `=` and an integer field number follow (they are left unread).
pub fn parse_map_field(tokens: &Vec<TokenWithLocation>, pos: &mut usize) -> (r: Result<
    (FieldType, String),
    ParseError,
>)
    ensures
        outcome(r, *final(pos)) == spec_map_field(tv(tokens@), *old(pos) as int),
        r is Ok ==> *old(pos) < *final(pos) <= tokens.len(),
{
    expect_kind(tokens, pos, Token::LessThan, unknown_location())?;
    if *pos >= tokens.len() {
        return Err(ParseError::UnexpectedEndOfInput(unknown_location()));
    }
    let key_tok = &tokens[*pos];
    *pos = *pos + 1;
    let key_type = parse_field_type(key_tok)?;
    expect_kind(tokens, pos, Token::Comma, unknown_location())?;
    if *pos >= tokens.len() {
        return Err(ParseError::UnexpectedEndOfInput(unknown_location()));
    }
    let value_tok = &tokens[*pos];
    *pos = *pos + 1;
    let value_type = parse_field_type(value_tok)?;
    expect_kind(tokens, pos, Token::GreaterThan, unknown_location())?;
    let name = parse_field_name(tokens, pos)?;
    if *pos + 1 >= tokens.len() {
        return Err(ParseError::UnexpectedEndOfInput(tokens[*pos].location));
    }
    let number = &tokens[*pos + 1];
    match number.token {
        Token::DecimalIntLiteral(_) | Token::HexIntLiteral(_) | Token::OctalIntLiteral(_) => {},
        _ => {
            return Err(found_err("Expected integer field number, found ", number));
        },
    }
    Ok((FieldType::MapOf(Box::new(key_type), Box::new(value_type)), name))
}

/// Reads a `reserved` statement and appends its items to `reserved`; where an
/// error stops it, the items read before the error stay appended.
pub fn parse_reserved(
    tokens: &Vec<TokenWithLocation>,
    pos: &mut usize,
    reserved: &mut Vec<Reserved>,
) -> (r: Result<(), ParseError>)
    ensures
        final(reserved)@.len() >= old(reserved)@.len(),
        final(reserved)@.subrange(0, old(reserved)@.len() as int) == old(reserved)@,
        reserved_view(final(reserved)@.subrange(old(reserved)@.len() as int, final(reserved)@.len() as int))
            == spec_reserved(tv(tokens@), *old(pos) as int).0,
        match r {
            Ok(_) => {
                &&& spec_reserved(tv(tokens@), *old(pos) as int).1 == at(*final(pos) as int)
                &&& *old(pos) < *final(pos) <= tokens.len()
            },
            Err(e) => spec_reserved(tv(tokens@), *old(pos) as int).1 == fails(e@, *final(pos) as int),
        },
{
    let ghost t = tv(tokens@);
    let ghost p0 = *pos as int;
    let ghost n0 = reserved@.len() as int;
    proof {
        assert(reserved@.subrange(0, n0) =~= old(reserved)@);
        assert(reserved_view(reserved@.subrange(n0, n0)) =~= Seq::<SpecReserved>::empty());
    }
    let rloc = expect_kind(tokens, pos, Token::Reserved, unknown_location())?;
    let mut last = rloc;
    let ghost target = spec_reserved(t, p0);
    loop
        invariant
            t == tv(tokens@),
            p0 == *old(pos),
            n0 == old(reserved)@.len(),
            target == spec_reserved(t, p0),
            p0 < *pos <= tokens.len(),
            reserved@.len() >= n0,
            reserved@.subrange(0, n0) == old(reserved)@,
            spec_reserved_loop(t, *pos as int, reserved_view(reserved@.subrange(n0, reserved@.len() as int)), last)
                == target,
        decreases tokens.len() - *pos,
    {
        let ghost items = reserved@;
        if *pos >= tokens.len() {
            return Err(ParseError::UnexpectedEndOfInput(last));
        }
        let tok = &tokens[*pos];
        *pos = *pos + 1;
        match tok.token {
            Token::DecimalIntLiteral(s) => {
                if s < -2147483648i64 || s > 2147483647i64 {
                    return Err(ParseError::InvalidNumber(tok.value.clone(), tok.location));
                }
                let start = s as i32;
                if *pos < tokens.len() && tokens[*pos].token == Token::To {
                    *pos = *pos + 1;
                    if *pos < tokens.len() {
                        match tokens[*pos].token {
                            Token::DecimalIntLiteral(e) => {
                                *pos = *pos + 1;
                                if e < -2147483648i64 || e > 2147483647i64 {
                                    let et = &tokens[*pos - 1];
                                    return Err(ParseError::InvalidNumber(et.value.clone(), et.location));
                                }
                                let end = e as i32;
                                if start <= end {
                                    reserved.push(Reserved::Range(start, end));
                                } else {
                                    return Err(ParseError::InvalidRange(start, end, tok.location));
                                }
                            },
                            _ => {
                                *pos = *pos + 1;
                                return Err(ParseError::UnexpectedEndOfInput(last));
                            },
                        }
                    } else {
                        return Err(ParseError::UnexpectedEndOfInput(last));
                    }
                } else {
                    reserved.push(Reserved::Number(start));
                }
                last = tok.location;
            },
            Token::StringLiteral => {
                reserved.push(Reserved::FieldName(tok.value.clone()));
                last = tok.location;
            },
            Token::Semicolon => {
                return Ok(());
            },
            Token::Comma => {},
            _ => {
                return Err(found_err("Unexpected token in reserved: ", tok));
            },
        }
        proof {
            assert(reserved@.subrange(0, n0) =~= old(reserved)@);
            if reserved@.len() > items.len() {
                assert(reserved@.subrange(n0, reserved@.len() as int) =~= items.subrange(n0, items.len() as int).push(reserved@.last()));
                lemma_map_push(items.subrange(n0, items.len() as int), reserved@.last(), |r: Reserved| r@);
            }
        }
    }
}

/// Reads an option statement and appends the option to `options`.
pub fn parse_option(
    tokens: &Vec<TokenWithLocation>,
    pos: &mut usize,
    options: &mut Vec<ProtoOption>,
) -> (r: Result<(), ParseError>)
    ensures
        match r {
            Ok(_) => {
                &&& final(options)@ == old(options)@.push(final(options)@.last())
                &&& spec_option(tv(tokens@), *old(pos) as int) == Ok::<_, SpecFail>(
                    (final(options)@.last()@, *final(pos) as int),
                )
                &&& *old(pos) < *final(pos) <= tokens.len()
            },
            Err(e) => {
                &&& spec_option(tv(tokens@), *old(pos) as int) == Err::<(SpecProtoOption, int), _>(
                    (e@, *final(pos) as int),
                )
                &&& final(options)@ == old(options)@
            },
        },
{
    let oloc = expect_kind(tokens, pos, Token::Option, unknown_location())?;
    let name = parse_dotted_identifier(tokens, pos)?;
    expect_kind(tokens, pos, Token::Equals, oloc)?;
    let value = parse_option_value(tokens, pos)?;
    expect_kind(tokens, pos, Token::Semicolon, oloc)?;
    options.push(ProtoOption::new(name, value));
    proof {
        assert(options@ =~= old(options)@.push(options@.last()));
    }
    Ok(())
}

/// Reads the syntax statement and records the syntax in `proto_file`.
pub fn parse_syntax(
    tokens: &Vec<TokenWithLocation>,
    pos: &mut usize,
    proto_file: &mut ProtoFile,
) -> (r: Result<(), ParseError>)
    ensures
        match r {
            Ok(_) => {
                &&& spec_syntax(tv(tokens@), *old(pos) as int) == Ok::<_, SpecFail>(
                    (final(proto_file).syntax, *final(pos) as int),
                )
                &&& final(proto_file)@ == SpecProtoFile { syntax: final(proto_file).syntax, ..old(proto_file)@ }
                &&& *old(pos) < *final(pos) <= tokens.len()
            },
            Err(e) => {
                &&& spec_syntax(tv(tokens@), *old(pos) as int) == Err::<(Syntax, int), _>(
                    (e@, *final(pos) as int),
                )
                &&& *final(proto_file) == *old(proto_file)
            },
        },
{
    if *pos >= tokens.len() {
        return Err(ParseError::UnexpectedEndOfInput(unknown_location()));
    }
    let st = &tokens[*pos];
    let is_syntax = match st.token {
        Token::Identifier => str_eq(st.value.as_str(), "syntax"),
        Token::Syntax => true,
        _ => false,
    };
    if !is_syntax {
        *pos = *pos + 1;
        return Err(found_err("Expected 'syntax', found ", st));
    }
    *pos = *pos + 1;
    let eq_loc = want_token(tokens, pos, Token::Equals, st.location, "Expected '=', found ")?;
    if *pos >= tokens.len() {
        return Err(ParseError::UnexpectedEndOfInput(eq_loc));
    }
    let v = &tokens[*pos];
    *pos = *pos + 1;
    let syntax = if v.token == Token::StringLiteral && str_eq(v.value.as_str(), "proto2") {
        Syntax::Proto2
    } else if v.token == Token::StringLiteral && str_eq(v.value.as_str(), "proto3") {
        Syntax::Proto3
    } else {
        return Err(
            ParseError::InvalidSyntax(
                String::from_str("Expected \"proto2\" or \"proto3\""),
                v.location,
            ),
        );
    };
    peek_token(tokens, pos, Token::Semicolon, v.location, "Expected ';', found ")?;
    proto_file.syntax = syntax;
    Ok(())
}

/// Reads a package declaration and records the package in `proto_file`.
#[verifier::loop_isolation(false)]
pub fn parse_package(
    tokens: &Vec<TokenWithLocation>,
    pos: &mut usize,
    proto_file: &mut ProtoFile,
) -> (r: Result<(), ParseError>)
    ensures
        match r {
            Ok(_) => {
                &&& final(proto_file).package is Some
                &&& spec_package(tv(tokens@), *old(pos) as int) == Ok::<_, SpecFail>(
                    (final(proto_file).package->0@, *final(pos) as int),
                )
                &&& final(proto_file)@ == SpecProtoFile {
                    package: Some(final(proto_file).package->0@),
                    ..old(proto_file)@
                }
                &&& *old(pos) < *final(pos) <= tokens.len()
            },
            Err(e) => {
                &&& spec_package(tv(tokens@), *old(pos) as int) == Err::<(Seq<char>, int), _>(
                    (e@, *final(pos) as int),
                )
                &&& *final(proto_file) == *old(proto_file)
            },
        },
{
    let ghost t = tv(tokens@);
    let ghost p0 = *pos as int;
    let pk_loc = expect_kind(tokens, pos, Token::Package, unknown_location())?;
    if *pos >= tokens.len() {
        return Err(ParseError::UnexpectedEndOfInput(pk_loc));
    }
    let first = &tokens[*pos];
    if first.token != Token::Identifier {
        *pos = *pos + 1;
        return Err(found_err("Expected package name, found ", first));
    }
    *pos = *pos + 1;
    let mut name = first.value.clone();
    let ghost target = spec_package_name(t, *pos as int, name@, pk_loc);
    let mut done = false;
    while !done
        invariant
            t == tv(tokens@),
            p0 == *old(pos),
            p0 < *pos <= tokens.len(),
            !done ==> spec_package_name(t, *pos as int, name@, pk_loc) == target,
            done ==> target == Ok::<_, SpecFail>((name@, *pos as int)),
        decreases tokens.len() - *pos, if done { 0int } else { 1int },
    {
        if *pos >= tokens.len() {
            done = true;
        } else {
            let tok = &tokens[*pos];
            if tok.token == Token::Dot {
                if *pos + 1 < tokens.len() && tokens[*pos + 1].token == Token::Identifier {
                    push_char(&mut name, '.');
                    name.append(tokens[*pos + 1].value.as_str());
                    *pos = *pos + 2;
                } else {
                    *pos = if *pos + 1 < tokens.len() {
                        *pos + 2
                    } else {
                        *pos + 1
                    };
                    return Err(
                        ParseError::UnexpectedToken(
                            String::from_str("Expected identifier after dot in package name"),
                            pk_loc,
                        ),
                    );
                }
            } else if tok.token == Token::Semicolon {
                done = true;
            } else {
                return Err(
                    ParseError::UnexpectedToken(
                        concat2("Unexpected token in package name: ", tok.debug_text().as_str()),
                        pk_loc,
                    ),
                );
            }
        }
    }
    expect_kind(tokens, pos, Token::Semicolon, pk_loc)?;
    proto_file.package = Some(name);
    Ok(())
}

/// Reads an import statement and appends the import to `proto_file`.
pub fn parse_import(
    tokens: &Vec<TokenWithLocation>,
    pos: &mut usize,
    proto_file: &mut ProtoFile,
) -> (r: Result<(), ParseError>)
    ensures
        match r {
            Ok(_) => {
                &&& final(proto_file).imports@.len() == old(proto_file).imports@.len() + 1
                &&& spec_import(tv(tokens@), *old(pos) as int) == Ok::<_, SpecFail>(
                    (final(proto_file).imports@.last()@, *final(pos) as int),
                )
                &&& final(proto_file)@ == SpecProtoFile {
                    imports: old(proto_file)@.imports.push(final(proto_file).imports@.last()@),
                    ..old(proto_file)@
                }
                &&& *old(pos) < *final(pos) <= tokens.len()
            },
            Err(e) => {
                &&& spec_import(tv(tokens@), *old(pos) as int) == Err::<(SpecImport, int), _>(
                    (e@, *final(pos) as int),
                )
                &&& *final(proto_file) == *old(proto_file)
            },
        },
{
    if *pos >= tokens.len() {
        return Err(ParseError::UnexpectedEndOfInput(unknown_location()));
    }
    let it = &tokens[*pos];
    if it.token != Token::Import {
        *pos = *pos + 1;
        return Err(found_err("Expected 'import', found ", it));
    }
    *pos = *pos + 1;
    if *pos >= tokens.len() {
        return Err(ParseError::UnexpectedEndOfInput(it.location));
    }
    let kind = if tokens[*pos].token == Token::Public {
        *pos = *pos + 1;
        ImportKind::Public
    } else if tokens[*pos].token == Token::Weak {
        *pos = *pos + 1;
        ImportKind::Weak
    } else {
        ImportKind::Default
    };
    if *pos >= tokens.len() {
        return Err(ParseError::UnexpectedEndOfInput(it.location));
    }
    let path_tok = &tokens[*pos];
    if path_tok.token != Token::StringLiteral {
        *pos = *pos + 1;
        return Err(
            found_err("Expected string literal or identifier for import path, found ", path_tok),
        );
    }
    *pos = *pos + 1;
    want_token(tokens, pos, Token::Semicolon, path_tok.location, "Expected ';', found ")?;
    let ghost old_imports = proto_file.imports@;
    proto_file.imports.push(Import { path: path_tok.value.clone(), kind });
    proof {
        lemma_map_push(old_imports, proto_file.imports@.last(), |i: Import| i@);
        assert(proto_file.imports@ =~= old_imports.push(proto_file.imports@.last()));
    }
    Ok(())
}

/// Reads a field of a message or a oneof.
pub fn parse_field(tokens: &Vec<TokenWithLocation>, pos: &mut usize) -> (r: Result<
    Field,
    ParseError,
>)
    ensures
        outcome(r, *final(pos)) == spec_field(tv(tokens@), *old(pos) as int),
        r is Ok ==> *old(pos) < *final(pos) <= tokens.len(),
{
    let ghost t = tv(tokens@);
    let start = if *pos < tokens.len() {
        tokens[*pos].location
    } else {
        unknown_location()
    };
    skip_comments_and_whitespace(tokens, pos);
    let label = if *pos < tokens.len() && tokens[*pos].token == Token::Repeated {
        *pos = *pos + 1;
        FieldLabel::Repeated
    } else if *pos < tokens.len() && tokens[*pos].token == Token::Required {
        *pos = *pos + 1;
        FieldLabel::Required
    } else {
        FieldLabel::Optional
    };
    skip_comments_and_whitespace(tokens, pos);
    let (typ, name) = if *pos < tokens.len() && tokens[*pos].token == Token::MapKeyword {
        *pos = *pos + 1;
        parse_map_field(tokens, pos)?
    } else {
        if *pos >= tokens.len() {
            return Err(ParseError::UnexpectedEndOfInput(start));
        }
        let type_tok = &tokens[*pos];
        *pos = *pos + 1;
        let typ = parse_field_type(type_tok)?;
        let name = parse_field_name(tokens, pos)?;
        (typ, name)
    };
    expect_kind(tokens, pos, Token::Equals, start)?;
    if *pos >= tokens.len() {
        return Err(ParseError::UnexpectedEndOfInput(start));
    }
    let nt = &tokens[*pos];
    *pos = *pos + 1;
    let number = match nt.token {
        Token::DecimalIntLiteral(n) => NumberValue::DecimalInt(n),
        Token::FloatLiteral => NumberValue::Float(nt.value.clone()),
        Token::HexIntLiteral(n) => NumberValue::Hex(n),
        Token::OctalIntLiteral(n) => NumberValue::Octal(n),
        _ => {
            return Err(found_err("Expected field number, found ", nt));
        },
    };
    expect_kind(tokens, pos, Token::Semicolon, start)?;
    let field = Field { name, number, label, typ, options: Vec::new() };
    proof {
        assert(field.options@.map_values(|o: ProtoOption| o@) =~= Seq::<SpecProtoOption>::empty());
    }
    Ok(field)
}

/// Reads a oneof block.
pub fn parse_oneof(tokens: &Vec<TokenWithLocation>, pos: &mut usize) -> (r: Result<
    OneOf,
    ParseError,
>)
    ensures
        outcome(r, *final(pos)) == spec_oneof(tv(tokens@), *old(pos) as int),
        r is Ok ==> *old(pos) < *final(pos) <= tokens.len(),
{
    let ghost t = tv(tokens@);
    let ghost p0 = *pos as int;
    expect_token(tokens, pos, Token::Oneof)?;
    let name = expect_identifier(tokens, pos)?;
    expect_token(tokens, pos, Token::OpenBrace)?;
    let mut oneof = OneOf { name, fields: Vec::new() };
    proof {
        assert(oneof.fields@.map_values(|f: Field| f@) =~= Seq::<SpecField>::empty());
    }
    let ghost target = spec_oneof(t, p0);
    let mut done = false;
    while !done && *pos < tokens.len()
        invariant
            t == tv(tokens@),
            p0 == *old(pos),
            target == spec_oneof(t, p0),
            p0 < *pos <= tokens.len(),
            !done ==> spec_oneof_body(t, *pos as int, oneof@) == target,
            done ==> target == Ok::<_, SpecFail>((oneof@, *pos as int)),
        decreases tokens.len() - *pos, if done { 0int } else { 1int },
    {
        if tokens[*pos].token == Token::CloseBrace {
            expect_token(tokens, pos, Token::CloseBrace)?;
            done = true;
        } else {
            let ghost before = oneof.fields@;
            let field = parse_field(tokens, pos)?;
            oneof.fields.push(field);
            proof {
                lemma_map_push(before, field, |f: Field| f@);
            }
        }
    }
    if !done {
        return Err(ParseError::UnexpectedEndOfInput(unknown_location()));
    }
    Ok(oneof)
}

/// Reads one option of an enum value: `name = value`.
pub fn parse_enum_value_option(tokens: &Vec<TokenWithLocation>, pos: &mut usize) -> (r: Result<
    EnumValueOption,
    ParseError,
>)
    ensures
        outcome(r, *final(pos)) == spec_enum_value_option(tv(tokens@), *old(pos) as int),
        r is Ok ==> *old(pos) < *final(pos) <= tokens.len(),
{
    if *pos >= tokens.len() {
        return Err(ParseError::UnexpectedEndOfInput(unknown_location()));
    }
    let name_tok = &tokens[*pos];
    if name_tok.token != Token::Identifier {
        *pos = *pos + 1;
        return Err(found_err("Expected option name, found ", name_tok));
    }
    *pos = *pos + 1;
    let eq_loc = want_token(tokens, pos, Token::Equals, name_tok.location, "Expected '=', found ")?;
    if *pos >= tokens.len() {
        return Err(ParseError::UnexpectedEndOfInput(eq_loc));
    }
    let vt = &tokens[*pos];
    *pos = *pos + 1;
    let value = match vt.token {
        Token::StringLiteral => EnumValueOptionValue::String(vt.value.clone()),
        Token::Identifier => EnumValueOptionValue::Identifier(vt.value.clone()),
        Token::DecimalIntLiteral(n) => EnumValueOptionValue::DecimalInt(n),
        Token::FloatLiteral => EnumValueOptionValue::Float(vt.value.clone()),
        _ => {
            return Err(found_err("Expected option value, found ", vt));
        },
    };
    Ok(EnumValueOption { name: name_tok.value.clone(), value })
}

/// Reads an enum option: `option name = value;`
pub fn parse_enum_option(tokens: &Vec<TokenWithLocation>, pos: &mut usize) -> (r: Result<
    EnumValueOption,
    ParseError,
>)
    ensures
        outcome(r, *final(pos)) == spec_enum_option(tv(tokens@), *old(pos) as int),
        r is Ok ==> *old(pos) < *final(pos) <= tokens.len(),
{
    let opt_loc = expect_kind(tokens, pos, Token::Option, unknown_location())?;
    if *pos >= tokens.len() {
        return Err(ParseError::UnexpectedEndOfInput(opt_loc));
    }
    let name_tok = &tokens[*pos];
    if name_tok.token != Token::Identifier {
        *pos = *pos + 1;
        return Err(found_err("Expected option name, found ", name_tok));
    }
    *pos = *pos + 1;
    expect_kind(tokens, pos, Token::Equals, name_tok.location)?;
    if *pos >= tokens.len() {
        return Err(ParseError::UnexpectedEndOfInput(name_tok.location));
    }
    let vt = &tokens[*pos];
    *pos = *pos + 1;
    let value = match vt.token {
        Token::StringLiteral => EnumValueOptionValue::String(vt.value.clone()),
        Token::Identifier => EnumValueOptionValue::Identifier(vt.value.clone()),
        Token::DecimalIntLiteral(n) => EnumValueOptionValue::DecimalInt(n),
        Token::FloatLiteral => EnumValueOptionValue::Float(vt.value.clone()),
        _ => {
            return Err(found_err("Expected option value, found ", vt));
        },
    };
    expect_kind(tokens, pos, Token::Semicolon, vt.location)?;
    Ok(EnumValueOption { name: name_tok.value.clone(), value })
}

/// Reads an enum value: `NAME = number [options];`
#[verifier::loop_isolation(false)]
pub fn parse_enum_value(tokens: &Vec<TokenWithLocation>, pos: &mut usize) -> (r: Result<
    EnumValue,
    ParseError,
>)
    ensures
        outcome(r, *final(pos)) == spec_enum_value(tv(tokens@), *old(pos) as int),
        r is Ok ==> *old(pos) < *final(pos) <= tokens.len(),
{
    let ghost t = tv(tokens@);
    let ghost p0 = *pos as int;
    if *pos >= tokens.len() {
        return Err(ParseError::UnexpectedEndOfInput(unknown_location()));
    }
    let name_tok = &tokens[*pos];
    if name_tok.token != Token::Identifier {
        *pos = *pos + 1;
        return Err(found_err("Expected enum value name, found ", name_tok));
    }
    *pos = *pos + 1;
    let eq_loc = want_token(tokens, pos, Token::Equals, name_tok.location, "Expected '=', found ")?;
    if *pos >= tokens.len() {
        return Err(ParseError::UnexpectedEndOfInput(eq_loc));
    }
    let nt = &tokens[*pos];
    *pos = *pos + 1;
    let number = match nt.token {
        Token::DecimalIntLiteral(n) => NumberValue::DecimalInt(n),
        Token::FloatLiteral => NumberValue::Float(nt.value.clone()),
        Token::OctalIntLiteral(n) => NumberValue::Octal(n),
        Token::HexIntLiteral(n) => NumberValue::Hex(n),
        _ => {
            return Err(found_err("Expected integer, found ", nt));
        },
    };
    let nl = nt.location;
    let mut options: Vec<EnumValueOption> = Vec::new();
    if *pos < tokens.len() && tokens[*pos].token == Token::OpenBracket {
        *pos = *pos + 1;
        let ghost target = spec_enum_value_options(t, *pos as int, Seq::empty(), nl);
        proof {
            assert(options@.map_values(|o: EnumValueOption| o@) =~= Seq::<SpecEnumValueOption>::empty());
        }
        let mut done = false;
        while !done
            invariant
                t == tv(tokens@),
                p0 < *pos <= tokens.len(),
                !done ==> spec_enum_value_options(t, *pos as int, options@.map_values(|o: EnumValueOption| o@), nl) == target,
                done ==> target == Ok::<_, SpecFail>(
                    (options@.map_values(|o: EnumValueOption| o@), *pos as int),
                ),
            decreases tokens.len() - *pos, if done { 0int } else { 1int },
        {
            let ghost before = options@;
            let option = parse_enum_value_option(tokens, pos)?;
            options.push(option);
            proof {
                lemma_map_push(before, option, |o: EnumValueOption| o@);
            }
            if *pos >= tokens.len() {
                return Err(ParseError::UnexpectedEndOfInput(nl));
            }
            if tokens[*pos].token == Token::Comma {
                *pos = *pos + 1;
            } else if tokens[*pos].token == Token::CloseBracket {
                *pos = *pos + 1;
                done = true;
            } else {
                return Err(found_err("Expected ',' or ']', found ", &tokens[*pos]));
            }
        }
    } else {
        proof {
            assert(options@.map_values(|o: EnumValueOption| o@) =~= Seq::<SpecEnumValueOption>::empty());
        }
    }
    want_token(tokens, pos, Token::Semicolon, nl, "Expected ';', found ")?;
    Ok(EnumValue { name: name_tok.value.clone(), number, options })
}

/// Reads an enum: `enum Name { values and options }`.
pub fn parse_enum(tokens: &Vec<TokenWithLocation>, pos: &mut usize) -> (r: Result<
    Enum,
    ParseError,
>)
    ensures
        outcome(r, *final(pos)) == spec_enum(tv(tokens@), *old(pos) as int),
        r is Ok ==> *old(pos) < *final(pos) <= tokens.len(),
{
    let ghost t = tv(tokens@);
    let ghost p0 = *pos as int;
    if *pos >= tokens.len() {
        return Err(ParseError::UnexpectedEndOfInput(unknown_location()));
    }
    let enum_tok = &tokens[*pos];
    if enum_tok.token != Token::Enum {
        *pos = *pos + 1;
        return Err(found_err("Expected 'enum', found ", enum_tok));
    }
    if *pos + 1 >= tokens.len() {
        *pos = *pos + 1;
        return Err(ParseError::UnexpectedEndOfInput(enum_tok.location));
    }
    let name_tok = &tokens[*pos + 1];
    if name_tok.token != Token::Identifier {
        *pos = *pos + 2;
        return Err(found_err("Expected enum name, found ", name_tok));
    }
    if *pos + 2 >= tokens.len() {
        *pos = *pos + 2;
        return Err(ParseError::UnexpectedEndOfInput(name_tok.location));
    }
    let ob = &tokens[*pos + 2];
    if ob.token != Token::OpenBrace {
        *pos = *pos + 3;
        return Err(found_err("Expected '{', found ", ob));
    }
    *pos = *pos + 3;
    let ob_loc = ob.location;
    let mut enum_def = Enum::new(name_tok.value.clone());
    let ghost target = spec_enum(t, p0);
    loop
        invariant
            t == tv(tokens@),
            p0 == *old(pos),
            target == spec_enum(t, p0),
            p0 < *pos <= tokens.len(),
            spec_enum_body(t, *pos as int, enum_def@, ob_loc) == target,
        decreases tokens.len() - *pos,
    {
        if *pos >= tokens.len() {
            return Err(ParseError::UnexpectedEndOfInput(ob_loc));
        }
        let tok = &tokens[*pos];
        if tok.token == Token::CloseBrace {
            *pos = *pos + 1;
            return Ok(enum_def);
        } else if tok.token == Token::Identifier {
            let ghost before = enum_def.values@;
            let value = parse_enum_value(tokens, pos)?;
            enum_def.values.push(value);
            proof {
                lemma_map_push(before, value, |v: EnumValue| v@);
            }
        } else if tok.token == Token::Option {
            let ghost before = enum_def.options@;
            let option = parse_enum_option(tokens, pos)?;
            enum_def.options.push(option);
            proof {
                lemma_map_push(before, option, |o: EnumValueOption| o@);
            }
        } else {
            return Err(found_err("Unexpected token in enum body: ", tok));
        }
    }
}

/// Reads a message: `message Name { ... }`.
#[verifier::rlimit(50)]
pub fn parse_message(tokens: &Vec<TokenWithLocation>, pos: &mut usize) -> (r: Result<
    Message,
    ParseError,
>)
    ensures
        outcome(r, *final(pos)) == spec_message(tv(tokens@), *old(pos) as int),
        r is Ok ==> *old(pos) < *final(pos) <= tokens.len(),
    decreases tokens@.len() - *old(pos),
{
    let ghost t = tv(tokens@);
    let ghost p0 = *pos as int;
    if *pos >= tokens.len() {
        return Err(ParseError::UnexpectedEndOfInput(unknown_location()));
    }
    let mt = &tokens[*pos];
    if mt.token != Token::Message {
        *pos = *pos + 1;
        return Err(found_err("Expected 'message', found ", mt));
    }
    if *pos + 1 >= tokens.len() {
        *pos = *pos + 1;
        return Err(ParseError::UnexpectedEndOfInput(mt.location));
    }
    let name_tok = &tokens[*pos + 1];
    if name_tok.token != Token::Identifier {
        *pos = *pos + 2;
        return Err(found_err("Expected message name, found ", name_tok));
    }
    if *pos + 2 >= tokens.len() {
        *pos = *pos + 2;
        return Err(ParseError::UnexpectedEndOfInput(name_tok.location));
    }
    let ob = &tokens[*pos + 2];
    if ob.token != Token::OpenBrace {
        *pos = *pos + 3;
        return Err(found_err("Expected '{', found ", ob));
    }
    *pos = *pos + 3;
    let ob_loc = ob.location;
    let mut message = Message::new(name_tok.value.clone());
    let ghost target = spec_message(t, p0);
    loop
        invariant
            t == tv(tokens@),
            p0 == *old(pos),
            target == spec_message(t, p0),
            p0 + 3 <= *pos <= tokens.len(),
            spec_message_body(t, *pos as int, message@, ob_loc) == target,
        decreases tokens.len() - *pos,
    {
        if *pos >= tokens.len() {
            return Err(ParseError::UnexpectedEndOfInput(ob_loc));
        }
        skip_comments_and_whitespace(tokens, pos);
        if *pos >= tokens.len() {
            return Err(ParseError::UnexpectedEndOfInput(ob_loc));
        }
        let k = tokens[*pos].token;
        let ghost m0 = message;
        if k == Token::CloseBrace {
            *pos = *pos + 1;
            return Ok(message);
        } else if k == Token::Message {
            let nested = parse_message(tokens, pos)?;
            message.nested_messages.push(nested);
            proof {
                lemma_messages_view_push(m0.nested_messages@, nested);
            }
        } else if k == Token::Enum {
            let nested = parse_enum(tokens, pos)?;
            message.nested_enums.push(nested);
            proof {
                lemma_map_push(m0.nested_enums@, nested, |e: Enum| e@);
            }
        } else if k == Token::Option {
            parse_option(tokens, pos, &mut message.options)?;
            proof {
                lemma_map_push(m0.options@, message.options@.last(), |o: ProtoOption| o@);
            }
        } else if k == Token::Reserved {
            let res = parse_reserved(tokens, pos, &mut message.reserved);
            if let Err(err) = res {
                return Err(err);
            }
            proof {
                let n0 = m0.reserved@.len() as int;
                let added = message.reserved@.subrange(n0, message.reserved@.len() as int);
                assert(message.reserved@ =~= m0.reserved@ + added);
                lemma_map_add(m0.reserved@, added, |x: Reserved| x@);
            }
        } else if k == Token::Oneof {
            let oneof = parse_oneof(tokens, pos)?;
            message.oneofs.push(oneof);
            proof {
                lemma_map_push(m0.oneofs@, oneof, |o: OneOf| o@);
            }
        } else {
            let field = parse_field(tokens, pos)?;
            message.fields.push(field);
            proof {
                lemma_map_push(m0.fields@, field, |f: Field| f@);
            }
        }
    }
}

/// Reads an rpc: `rpc Name ([stream] In) returns ([stream] Out)` followed by
/// `;` or by a block of options.
#[verifier::loop_isolation(false)]
pub fn parse_method(tokens: &Vec<TokenWithLocation>, pos: &mut usize) -> (r: Result<
    Method,
    ParseError,
>)
    ensures
        outcome(r, *final(pos)) == spec_method(tv(tokens@), *old(pos) as int),
        r is Ok ==> *old(pos) < *final(pos) <= tokens.len(),
{
    let ghost t = tv(tokens@);
    let ghost p0 = *pos as int;
    skip_comments_and_whitespace(tokens, pos);
    expect_kind(tokens, pos, Token::Rpc, unknown_location())?;
    skip_comments_and_whitespace(tokens, pos);
    let name = parse_identifier(tokens, pos)?;
    skip_comments_and_whitespace(tokens, pos);
    expect_kind(tokens, pos, Token::OpenParen, unknown_location())?;
    skip_comments_and_whitespace(tokens, pos);
    let mut client_streaming = false;
    if *pos < tokens.len() && tokens[*pos].token == Token::Stream {
        client_streaming = true;
        *pos = *pos + 1;
        skip_comments_and_whitespace(tokens, pos);
    }
    let input_type = parse_type(tokens, pos)?;
    let ghost a5 = *pos as int;
    assert(spec_method(t, p0) == spec_method_rest(t, a5, name@, client_streaming, input_type@));
    skip_comments_and_whitespace(tokens, pos);
    expect_kind(tokens, pos, Token::CloseParen, unknown_location())?;
    skip_comments_and_whitespace(tokens, pos);
    expect_kind(tokens, pos, Token::Returns, unknown_location())?;
    skip_comments_and_whitespace(tokens, pos);
    expect_kind(tokens, pos, Token::OpenParen, unknown_location())?;
    skip_comments_and_whitespace(tokens, pos);
    let mut server_streaming = false;
    if *pos < tokens.len() && tokens[*pos].token == Token::Stream {
        server_streaming = true;
        *pos = *pos + 1;
        skip_comments_and_whitespace(tokens, pos);
    }
    let output_type = parse_type(tokens, pos)?;
    skip_comments_and_whitespace(tokens, pos);
    expect_kind(tokens, pos, Token::CloseParen, unknown_location())?;
    skip_comments_and_whitespace(tokens, pos);
    let mut options: Vec<ProtoOption> = Vec::new();
    proof {
        assert(options_view(options@) =~= Seq::<SpecProtoOption>::empty());
    }
    if *pos >= tokens.len() {
        return Err(ParseError::UnexpectedEndOfInput(unknown_location()));
    }
    let tok = &tokens[*pos];
    if tok.token == Token::OpenBrace {
        *pos = *pos + 1;
        let ghost target = spec_method_options(t, *pos as int, Seq::empty());
        let mut done = false;
        while !done && *pos < tokens.len()
            invariant
                t == tv(tokens@),
                p0 < *pos <= tokens.len(),
                !done ==> spec_method_options(t, *pos as int, options_view(options@)) == target,
                done ==> target == Ok::<_, SpecFail>(
                    (options_view(options@), *pos as int),
                ),
            decreases tokens.len() - *pos, if done { 0int } else { 1int },
        {
            let k = tokens[*pos].token;
            if k == Token::CloseBrace {
                *pos = *pos + 1;
                done = true;
            } else if k == Token::Option {
                let ghost before = options@;
                parse_option(tokens, pos, &mut options)?;
                proof {
                    lemma_map_push(before, options@.last(), |o: ProtoOption| o@);
                    lemma_skip_comments(t, *pos as int);
                }
                skip_comments_and_whitespace(tokens, pos);
            } else if k == Token::Comment {
                *pos = *pos + 1;
                proof {
                    lemma_skip_comments(t, *pos as int);
                }
                skip_comments_and_whitespace(tokens, pos);
            } else {
                return Err(found_err("Unexpected token in method options: ", &tokens[*pos]));
            }
        }
        if !done {
            return Err(ParseError::UnexpectedEndOfInput(unknown_location()));
        }
    } else if tok.token == Token::Semicolon {
        *pos = *pos + 1;
    } else {
        return Err(found_err("Expected '{' or ';' after method definition, found ", tok));
    }
    Ok(Method { name, input_type, output_type, client_streaming, server_streaming, options })
}

/// Reads a service: `service Name { rpcs and options }`.
#[verifier::loop_isolation(false)]
pub fn parse_service(tokens: &Vec<TokenWithLocation>, pos: &mut usize) -> (r: Result<
    Service,
    ParseError,
>)
    ensures
        outcome(r, *final(pos)) == spec_service(tv(tokens@), *old(pos) as int),
        r is Ok ==> *old(pos) < *final(pos) <= tokens.len(),
{
    let ghost t = tv(tokens@);
    let ghost p0 = *pos as int;
    skip_comments_and_whitespace(tokens, pos);
    expect_kind(tokens, pos, Token::Service, unknown_location())?;
    skip_comments_and_whitespace(tokens, pos);
    let name = parse_identifier(tokens, pos)?;
    skip_comments_and_whitespace(tokens, pos);
    expect_kind(tokens, pos, Token::OpenBrace, unknown_location())?;
    let mut service = Service::new(name);
    let ghost target = spec_service(t, p0);
    loop
        invariant
            t == tv(tokens@),
            p0 < *pos <= tokens.len(),
            spec_service_body(t, *pos as int, service@) == target,
        decreases tokens.len() - *pos,
    {
        proof {
            lemma_skip_comments(t, *pos as int);
        }
        skip_comments_and_whitespace(tokens, pos);
        if *pos >= tokens.len() {
            return Err(ParseError::UnexpectedEndOfInput(unknown_location()));
        }
        let tok = &tokens[*pos];
        let ghost s0 = service;
        if tok.token == Token::CloseBrace {
            *pos = *pos + 1;
            return Ok(service);
        } else if tok.token == Token::Rpc {
            let method = parse_method(tokens, pos)?;
            service.methods.push(method);
            proof {
                lemma_map_push(s0.methods@, method, |m: Method| m@);
            }
        } else if tok.token == Token::Option {
            parse_option(tokens, pos, &mut service.options)?;
            proof {
                lemma_map_push(s0.options@, service.options@.last(), |o: ProtoOption| o@);
            }
        } else if tok.token == Token::Comment {
            *pos = *pos + 1;
        } else {
            return Err(found_err("Unexpected token in service body: ", tok));
        }
    }
}

/// Parses a whole token sequence: the syntax statement, then package
/// declarations, imports and options, then messages, enums and services.
#[verifier::loop_isolation(false)]
pub fn parse_tokenized_input(tokens: &Vec<TokenWithLocation>) -> (r: Result<ProtoFile, ParseError>)
    ensures
        match r {
            Ok(pf) => spec_file(tv(tokens@)) == Ok::<_, crate::parser::error::SpecParseError>(pf@),
            Err(e) => spec_file(tv(tokens@)) == Err::<SpecProtoFile, _>(e@),
        },
{
    let ghost t = tv(tokens@);
    let mut pos: usize = 0;
    let mut proto_file = ProtoFile::new();
    skip_comments_and_whitespace(tokens, &mut pos);
    parse_syntax(tokens, &mut pos, &mut proto_file)?;
    let ghost p1 = pos as int;
    let ghost syntax = proto_file.syntax;

    // package declarations
    let ghost target = spec_packages(t, pos as int, None);
    let mut done = false;
    while !done && pos < tokens.len()
        invariant
            t == tv(tokens@),
            p1 <= pos <= tokens.len(),
            proto_file@ == (SpecProtoFile { package: proto_file@.package, ..empty_file() }).with_syntax(syntax),
            !done ==> spec_packages(t, pos as int, proto_file@.package) == target,
            done ==> target == Ok::<_, SpecFail>(
                (proto_file@.package, pos as int),
            ),
        decreases tokens.len() - pos, if done { 0int } else { 1int },
    {
        let k = tokens[pos].token;
        if k == Token::Package {
            parse_package(tokens, &mut pos, &mut proto_file)?;
        } else if k == Token::Comment {
            pos = pos + 1;
        } else {
            done = true;
        }
    }
    let ghost p2 = pos as int;
    let ghost package = proto_file@.package;

    // imports
    let ghost target = spec_imports(t, pos as int, Seq::empty());
    let mut done = false;
    while !done && pos < tokens.len()
        invariant
            t == tv(tokens@),
            p2 <= pos <= tokens.len(),
            proto_file@ == (SpecProtoFile { imports: proto_file@.imports, ..empty_file() }).with_syntax(syntax).with_package(package),
            !done ==> spec_imports(t, pos as int, proto_file@.imports) == target,
            done ==> target == Ok::<_, SpecFail>(
                (proto_file@.imports, pos as int),
            ),
        decreases tokens.len() - pos, if done { 0int } else { 1int },
    {
        let k = tokens[pos].token;
        if k == Token::Import {
            parse_import(tokens, &mut pos, &mut proto_file)?;
        } else if k == Token::Comment {
            pos = pos + 1;
        } else {
            done = true;
        }
    }
    let ghost p3 = pos as int;
    let ghost imports = proto_file@.imports;

    // options
    let ghost target = spec_file_options(t, pos as int, Seq::empty());
    let mut done = false;
    while !done && pos < tokens.len()
        invariant
            t == tv(tokens@),
            p3 <= pos <= tokens.len(),
            proto_file@ == (SpecProtoFile { options: proto_file@.options, ..empty_file() }).with_syntax(syntax).with_package(package).with_imports(imports),
            !done ==> spec_file_options(t, pos as int, proto_file@.options) == target,
            done ==> target == Ok::<_, SpecFail>(
                (proto_file@.options, pos as int),
            ),
        decreases tokens.len() - pos, if done { 0int } else { 1int },
    {
        let k = tokens[pos].token;
        if k == Token::Option {
            let ghost before = proto_file.options@;
            parse_option(tokens, &mut pos, &mut proto_file.options)?;
            proof {
                lemma_map_push(before, proto_file.options@.last(), |o: ProtoOption| o@);
            }
        } else if k == Token::Comment {
            pos = pos + 1;
        } else {
            done = true;
        }
    }

    // messages, enums and services
    let ghost target = spec_top_level(t, pos as int, proto_file@);
    while pos < tokens.len()
        invariant
            t == tv(tokens@),
            pos <= tokens.len(),
            spec_top_level(t, pos as int, proto_file@) == target,
        decreases tokens.len() - pos,
    {
        let tok = &tokens[pos];
        let ghost f0 = proto_file;
        if tok.token == Token::Message {
            let message = parse_message(tokens, &mut pos)?;
            proto_file.messages.push(message);
            proof {
                lemma_messages_view_push(f0.messages@, message);
            }
        } else if tok.token == Token::Enum {
            let enum_def = parse_enum(tokens, &mut pos)?;
            proto_file.enums.push(enum_def);
            proof {
                lemma_map_push(f0.enums@, enum_def, |e: Enum| e@);
            }
        } else if tok.token == Token::Service {
            let service = parse_service(tokens, &mut pos)?;
            proto_file.services.push(service);
            proof {
                lemma_map_push(f0.services@, service, |s: Service| s@);
            }
        } else if tok.token == Token::Comment {
            pos = pos + 1;
        } else {
            return Err(ParseError::UnexpectedToken(tok.debug_text(), tok.location));
        }
        proof {
            lemma_skip_comments(t, pos as int);
        }
        skip_comments_and_whitespace(tokens, &mut pos);
    }
    Ok(proto_file)
}

/// Parses the text of a Protobuf file into its syntax tree.
pub fn parse_proto_file(input: &str) -> (r: Result<ProtoFile, ParseError>)
    ensures
        match r {
            Ok(pf) => spec_parse_proto_file(input@) == Ok::<_, crate::parser::error::SpecParseError>(pf@),
            Err(e) => spec_parse_proto_file(input@) == Err::<SpecProtoFile, _>(e@),
        },
{
    let tokens = tokenize(input)?;
    parse_tokenized_input(&tokens)
}

} // verus!
