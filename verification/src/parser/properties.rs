//! Properties of the lexer and of the parser that hold of every input.
use vstd::prelude::*;

use crate::parser::ast::{SpecMessage, SpecProtoFile, SpecReserved};
use crate::parser::error::Location;
use crate::parser::grammar::{
    lemma_skip_comments, skip_comments, spec_file_options, spec_imports, spec_message,
    spec_message_body, spec_packages, spec_parse_proto_file, spec_reserved, spec_reserved_loop,
    spec_syntax, spec_top_level, expect_at, spec_method, spec_service, spec_type, spec_type_loop,
    SpecFail,
};
use crate::parser::lexer::{
    keyword, lex_from, lemma_block_end, lemma_lex_string, lemma_span, lex_number, lex_string,
    line_col, location_at, block_end, span, spec_tokenize, CharClass, is_letter, is_digit,
    is_space, symbol, mk, lemma_line_col_bounds, digit_value, unescape,
};
use crate::parser::token::{SpecToken, Token};

verus! {

// ---------------------------------------------------------------------
// Reserved ranges

/// Every range among `rs` starts at or before its end.
pub open spec fn ranges_ordered(rs: Seq<SpecReserved>) -> bool {
    forall|i: int| 0 <= i < rs.len() ==> (#[trigger] rs[i] matches SpecReserved::Range(a, b) ==> a <= b)
}

/// Every reserved range of a message and of the messages nested in it starts
/// at or before its end.
pub open spec fn message_ranges_ordered(m: SpecMessage) -> bool
    decreases m,
{
    ranges_ordered(m.reserved) && messages_ranges_ordered(m.nested_messages)
}

/// `message_ranges_ordered` of each of the given messages.
pub open spec fn messages_ranges_ordered(ms: Seq<SpecMessage>) -> bool
    decreases ms,
{
    if ms.len() == 0 {
        true
    } else {
        messages_ranges_ordered(ms.subrange(0, ms.len() - 1)) && message_ranges_ordered(
            ms[ms.len() - 1],
        )
    }
}

proof fn lemma_messages_ordered_push(ms: Seq<SpecMessage>, m: SpecMessage)
    requires
        messages_ranges_ordered(ms),
        message_ranges_ordered(m),
    ensures
        messages_ranges_ordered(ms.push(m)),
{
    assert(ms.push(m).subrange(0, ms.len() as int) =~= ms);
}

proof fn lemma_reserved_loop_ordered(
    t: Seq<SpecToken>,
    q: int,
    items: Seq<SpecReserved>,
    last: Location,
)
    requires
        ranges_ordered(items),
    ensures
        ranges_ordered(spec_reserved_loop(t, q, items, last).0),
    decreases t.len() - q,
{
    if !(q < 0 || q >= t.len()) {
        let x = t[q];
        match x.token {
            Token::DecimalIntLiteral(s) => {
                let start = s as i32;
                if 0 <= q + 1 < t.len() && t[q + 1].token == Token::To {
                    if q + 2 < t.len() {
                        match t[q + 2].token {
                            Token::DecimalIntLiteral(e) => {
                                let end = e as i32;
                                if start <= end {
                                    let items2 = items.push(SpecReserved::Range(start, end));
                                    assert(ranges_ordered(items2)) by {
                                        assert forall|i: int| 0 <= i < items2.len() implies (
                                        #[trigger] items2[i] matches SpecReserved::Range(a, b) ==> a
                                            <= b) by {
                                            if i < items.len() {
                                                assert(items2[i] == items[i]);
                                            }
                                        }
                                    }
                                    lemma_reserved_loop_ordered(t, q + 3, items2, x.location);
                                }
                            },
                            _ => {},
                        }
                    }
                } else {
                    let items2 = items.push(SpecReserved::Number(start));
                    assert(ranges_ordered(items2)) by {
                        assert forall|i: int| 0 <= i < items2.len() implies (
                        #[trigger] items2[i] matches SpecReserved::Range(a, b) ==> a <= b) by {
                            if i < items.len() {
                                assert(items2[i] == items[i]);
                            }
                        }
                    }
                    lemma_reserved_loop_ordered(t, q + 1, items2, x.location);
                }
            },
            Token::StringLiteral => {
                let items2 = items.push(SpecReserved::FieldName(x.value));
                assert(ranges_ordered(items2)) by {
                    assert forall|i: int| 0 <= i < items2.len() implies (
                    #[trigger] items2[i] matches SpecReserved::Range(a, b) ==> a <= b) by {
                        if i < items.len() {
                            assert(items2[i] == items[i]);
                        }
                    }
                }
                lemma_reserved_loop_ordered(t, q + 1, items2, x.location);
            },
            Token::Comma => {
                lemma_reserved_loop_ordered(t, q + 1, items, last);
            },
            _ => {},
        }
    }
}

/// The items that a `reserved` statement gives, and those it read before an
/// error stopped it, have every range start at or before its end.
pub proof fn law_reserved_ranges_ordered(t: Seq<SpecToken>, p: int)
    ensures
        ranges_ordered(spec_reserved(t, p).0),
{
    if let Ok(p1) = expect_at(t, p, Token::Reserved, crate::parser::error::loc0()) {
        lemma_reserved_loop_ordered(t, p1, Seq::empty(), t[p].location);
    }
}

proof fn lemma_message_ordered(t: Seq<SpecToken>, p: int)
    ensures
        spec_message(t, p) matches Ok((m, _)) ==> message_ranges_ordered(m),
    decreases t.len() - p, 0int,
{
    if !(p < 0 || p >= t.len()) && t[p].token == Token::Message && p + 2 < t.len() && t[p
        + 1].token == Token::Identifier && t[p + 2].token == Token::OpenBrace {
        let m0 = crate::parser::ast::empty_message(t[p + 1].value);
        assert(ranges_ordered(m0.reserved));
        assert(messages_ranges_ordered(m0.nested_messages));
        lemma_message_body_ordered(t, p + 3, m0, t[p + 2].location);
    }
}

proof fn lemma_message_body_ordered(t: Seq<SpecToken>, q: int, m: SpecMessage, ob: Location)
    requires
        message_ranges_ordered(m),
    ensures
        spec_message_body(t, q, m, ob) matches Ok((m2, _)) ==> message_ranges_ordered(m2),
    decreases t.len() - q, 1int,
{
    if !(q < 0 || q >= t.len()) {
        let q1 = skip_comments(t, q);
        lemma_skip_comments(t, q);
        if q1 < t.len() {
            let k = t[q1].token;
            if k == Token::CloseBrace {
            } else if k == Token::Message {
                lemma_message_ordered(t, q1);
                if let Ok((nm, q2)) = spec_message(t, q1) {
                    if q1 < q2 <= t.len() {
                        lemma_messages_ordered_push(m.nested_messages, nm);
                        lemma_message_body_ordered(
                            t,
                            q2,
                            SpecMessage { nested_messages: m.nested_messages.push(nm), ..m },
                            ob,
                        );
                    }
                }
            } else if k == Token::Enum {
                if let Ok((en, q2)) = crate::parser::grammar::spec_enum(t, q1) {
                    if q1 < q2 <= t.len() {
                        lemma_message_body_ordered(
                            t,
                            q2,
                            SpecMessage { nested_enums: m.nested_enums.push(en), ..m },
                            ob,
                        );
                    }
                }
            } else if k == Token::Option {
                if let Ok((o, q2)) = crate::parser::grammar::spec_option(t, q1) {
                    if q1 < q2 <= t.len() {
                        lemma_message_body_ordered(
                            t,
                            q2,
                            SpecMessage { options: m.options.push(o), ..m },
                            ob,
                        );
                    }
                }
            } else if k == Token::Reserved {
                law_reserved_ranges_ordered(t, q1);
                let rs = spec_reserved(t, q1).0;
                if let Ok(q2) = spec_reserved(t, q1).1 {
                    if q1 < q2 <= t.len() {
                        let m2 = SpecMessage { reserved: m.reserved + rs, ..m };
                        assert(ranges_ordered(m2.reserved)) by {
                            assert forall|i: int| 0 <= i < m2.reserved.len() implies (
                            #[trigger] m2.reserved[i] matches SpecReserved::Range(a, b) ==> a
                                <= b) by {
                                if i < m.reserved.len() {
                                    assert(m2.reserved[i] == m.reserved[i]);
                                } else {
                                    assert(m2.reserved[i] == rs[i - m.reserved.len()]);
                                }
                            }
                        }
                        lemma_message_body_ordered(t, q2, m2, ob);
                    }
                }
            } else if k == Token::Oneof {
                if let Ok((o, q2)) = crate::parser::grammar::spec_oneof(t, q1) {
                    if q1 < q2 <= t.len() {
                        lemma_message_body_ordered(
                            t,
                            q2,
                            SpecMessage { oneofs: m.oneofs.push(o), ..m },
                            ob,
                        );
                    }
                }
            } else {
                if let Ok((f, q2)) = crate::parser::grammar::spec_field(t, q1) {
                    if q1 < q2 <= t.len() {
                        lemma_message_body_ordered(
                            t,
                            q2,
                            SpecMessage { fields: m.fields.push(f), ..m },
                            ob,
                        );
                    }
                }
            }
        }
    }
}

proof fn lemma_top_level_ordered(t: Seq<SpecToken>, q: int, f: SpecProtoFile)
    requires
        messages_ranges_ordered(f.messages),
    ensures
        spec_top_level(t, q, f) matches Ok(f2) ==> messages_ranges_ordered(f2.messages),
    decreases t.len() - q,
{
    if !(q < 0 || q >= t.len()) {
        let x = t[q];
        let next: crate::parser::grammar::SpecResult<SpecProtoFile> = if x.token == Token::Message {
            lemma_message_ordered(t, q);
            match spec_message(t, q) {
                Err(e) => Err(e),
                Ok((m, q2)) => {
                    lemma_messages_ordered_push(f.messages, m);
                    Ok((SpecProtoFile { messages: f.messages.push(m), ..f }, q2))
                },
            }
        } else if x.token == Token::Enum {
            match crate::parser::grammar::spec_enum(t, q) {
                Err(e) => Err(e),
                Ok((e, q2)) => Ok((SpecProtoFile { enums: f.enums.push(e), ..f }, q2)),
            }
        } else if x.token == Token::Service {
            match crate::parser::grammar::spec_service(t, q) {
                Err(e) => Err(e),
                Ok((s, q2)) => Ok((SpecProtoFile { services: f.services.push(s), ..f }, q2)),
            }
        } else if x.token == Token::Comment {
            Ok((f, q + 1))
        } else {
            Err((crate::parser::error::SpecParseError::UnexpectedToken(crate::parser::token::token_debug(x), x.location), q))
        };
        if let Ok((f2, q2)) = next {
            if q < q2 <= t.len() {
                lemma_skip_comments(t, q2);
                lemma_top_level_ordered(t, skip_comments(t, q2), f2);
            }
        }
    }
}

/// Every reserved range of every message (nested ones too) of a parsed
/// file starts at or before its end: a backward range is an error.
pub proof fn law_parsed_ranges_ordered(s: Seq<char>)
    ensures
        spec_parse_proto_file(s) matches Ok(f) ==> messages_ranges_ordered(f.messages),
{
    if let Ok(t) = spec_tokenize(s) {
        if let Ok((syntax, p1)) = spec_syntax(t, skip_comments(t, 0)) {
            if let Ok((package, p2)) = spec_packages(t, p1, None) {
                if let Ok((imports, p3)) = spec_imports(t, p2, Seq::empty()) {
                    if let Ok((options, p4)) = spec_file_options(t, p3, Seq::empty()) {
                        let f0 = SpecProtoFile {
                            syntax,
                            package,
                            imports,
                            options,
                            messages: Seq::empty(),
                            enums: Seq::empty(),
                            services: Seq::empty(),
                        };
                        lemma_top_level_ordered(t, p4, f0);
                    }
                }
            }
        }
    }
}

// ---------------------------------------------------------------------
// Identifiers

/// An identifier token is never spelled like a keyword, and is not empty.
pub open spec fn identifier_ok(x: SpecToken) -> bool {
    x.token == Token::Identifier ==> keyword(x.value) is None && x.value.len() > 0
}

proof fn lemma_lex_identifiers(s: Seq<char>, i: int, acc: Seq<SpecToken>)
    requires
        forall|k: int| 0 <= k < acc.len() ==> identifier_ok(#[trigger] acc[k]),
    ensures
        lex_from(s, i, acc) matches Ok(t) ==> forall|k: int|
            0 <= k < t.len() ==> identifier_ok(#[trigger] t[k]),
    decreases s.len() - i,
{
    if !(i < 0 || i >= s.len()) {
        let c = s[i];
        let l = location_at(s, i);
        if is_space(c) {
            lemma_lex_identifiers(s, i + 1, acc);
        } else if c == '/' {
            if i + 1 < s.len() && s[i + 1] == '/' {
                let e = span(s, i + 2, CharClass::NotNewline);
                lemma_span(s, i + 2, CharClass::NotNewline);
                let acc2 = acc.push(mk(Token::Comment, s.subrange(i + 2, e), l));
                assert forall|k: int| 0 <= k < acc2.len() implies identifier_ok(#[trigger] acc2[k]) by {
                    if k < acc.len() {
                        assert(acc2[k] == acc[k]);
                    }
                }
                lemma_lex_identifiers(s, e, acc2);
            } else if i + 1 < s.len() && s[i + 1] == '*' {
                lemma_block_end(s, i + 2);
                if let Some(k) = block_end(s, i + 2) {
                    let acc2 = acc.push(mk(Token::Comment, s.subrange(i + 2, k), l));
                    assert forall|j: int| 0 <= j < acc2.len() implies identifier_ok(#[trigger] acc2[j]) by {
                        if j < acc.len() {
                            assert(acc2[j] == acc[j]);
                        }
                    }
                    lemma_lex_identifiers(s, k + 2, acc2);
                }
            }
        } else if is_letter(c) {
            let e = span(s, i, CharClass::Word);
            lemma_span(s, i, CharClass::Word);
            let w = s.subrange(i, e);
            let kind = match keyword(w) {
                Some(k) => k,
                None => Token::Identifier,
            };
            let acc2 = acc.push(mk(kind, w, l));
            assert forall|k: int| 0 <= k < acc2.len() implies identifier_ok(#[trigger] acc2[k]) by {
                if k < acc.len() {
                    assert(acc2[k] == acc[k]);
                }
            }
            lemma_lex_identifiers(s, e, acc2);
        } else if is_digit(c) || (c == '-' && i + 1 < s.len() && is_digit(s[i + 1])) {
            if let Ok((k, e)) = lex_number(s, i) {
                if i < e <= s.len() {
                    let acc2 = acc.push(mk(k, s.subrange(i, e), l));
                    assert(k != Token::Identifier);
                    assert forall|j: int| 0 <= j < acc2.len() implies identifier_ok(#[trigger] acc2[j]) by {
                        if j < acc.len() {
                            assert(acc2[j] == acc[j]);
                        }
                    }
                    lemma_lex_identifiers(s, e, acc2);
                }
            }
        } else if c == '"' || c == '\'' {
            lemma_lex_string(s, i + 1, c, Seq::empty());
            if let Some((v, e)) = lex_string(s, i + 1, c, Seq::empty()) {
                let acc2 = acc.push(mk(Token::StringLiteral, v, l));
                assert forall|j: int| 0 <= j < acc2.len() implies identifier_ok(#[trigger] acc2[j]) by {
                    if j < acc.len() {
                        assert(acc2[j] == acc[j]);
                    }
                }
                lemma_lex_identifiers(s, e, acc2);
            }
        } else {
            if let Some(k) = symbol(c) {
                let acc2 = acc.push(mk(k, seq![c], l));
                assert forall|j: int| 0 <= j < acc2.len() implies identifier_ok(#[trigger] acc2[j]) by {
                    if j < acc.len() {
                        assert(acc2[j] == acc[j]);
                    }
                }
                lemma_lex_identifiers(s, i + 1, acc2);
            }
        }
    }
}

/// No identifier among the tokens of a text is spelled like a keyword, and
/// none is empty.
pub proof fn law_identifiers_are_not_keywords(s: Seq<char>)
    ensures
        spec_tokenize(s) matches Ok(t) ==> forall|k: int|
            0 <= k < t.len() ==> identifier_ok(#[trigger] t[k]),
{
    lemma_lex_identifiers(s, 0, Seq::empty());
}

// ---------------------------------------------------------------------
// The order of tokens

/// Location `a` comes before location `b` in the text.
pub open spec fn before(a: Location, b: Location) -> bool {
    a.line < b.line || (a.line == b.line && a.column < b.column)
}

/// Each token's location comes before the next one's.
pub open spec fn in_text_order(t: Seq<SpecToken>) -> bool {
    forall|i: int, j: int| 0 <= i < j < t.len() ==> before(#[trigger] t[i].location, #[trigger] t[j].location)
}

proof fn lemma_line_col_step(s: Seq<char>, i: int)
    requires
        0 <= i < s.len(),
    ensures
        line_col(s, i).0 < line_col(s, i + 1).0 || (line_col(s, i).0 == line_col(s, i + 1).0
            && line_col(s, i).1 < line_col(s, i + 1).1),
{
}

/// A later position of the text has a later line and column.
proof fn lemma_line_col_order(s: Seq<char>, i: int, j: int)
    requires
        0 <= i < j <= s.len(),
    ensures
        line_col(s, i).0 < line_col(s, j).0 || (line_col(s, i).0 == line_col(s, j).0
            && line_col(s, i).1 < line_col(s, j).1),
    decreases j - i,
{
    lemma_line_col_step(s, j - 1);
    if i < j - 1 {
        lemma_line_col_order(s, i, j - 1);
    }
}

proof fn lemma_location_order(s: Seq<char>, i: int, j: int)
    requires
        0 <= i < j <= s.len(),
        s.len() < usize::MAX,
    ensures
        before(location_at(s, i), location_at(s, j)),
{
    lemma_line_col_order(s, i, j);
    lemma_line_col_bounds(s, i);
    lemma_line_col_bounds(s, j);
}

proof fn lemma_push_ordered(acc: Seq<SpecToken>, x: SpecToken, next: Location)
    requires
        in_text_order(acc),
        forall|k: int| 0 <= k < acc.len() ==> before(#[trigger] acc[k].location, x.location),
        before(x.location, next),
    ensures
        in_text_order(acc.push(x)),
        forall|k: int| 0 <= k < acc.len() + 1 ==> before(#[trigger] acc.push(x)[k].location, next),
{
    let acc2 = acc.push(x);
    assert forall|i: int, j: int| 0 <= i < j < acc2.len() implies before(
        #[trigger] acc2[i].location,
        #[trigger] acc2[j].location,
    ) by {
        if j < acc.len() {
            assert(acc2[i] == acc[i] && acc2[j] == acc[j]);
        } else {
            assert(acc2[i] == acc[i]);
        }
    }
    assert forall|k: int| 0 <= k < acc.len() + 1 implies before(#[trigger] acc.push(x)[k].location, next) by {
        if k < acc.len() {
            assert(acc2[k] == acc[k]);
        }
    }
}

proof fn lemma_lex_order(s: Seq<char>, i: int, acc: Seq<SpecToken>)
    requires
        0 <= i <= s.len(),
        s.len() < usize::MAX,
        in_text_order(acc),
        forall|k: int| 0 <= k < acc.len() ==> before(#[trigger] acc[k].location, location_at(s, i)),
    ensures
        lex_from(s, i, acc) matches Ok(t) ==> in_text_order(t),
    decreases s.len() - i,
{
    if i < s.len() {
        let c = s[i];
        let l = location_at(s, i);
        if is_space(c) {
            lemma_location_order(s, i, i + 1);
            assert forall|k: int| 0 <= k < acc.len() implies before(#[trigger] acc[k].location, location_at(s, i + 1)) by {
                assert(before(acc[k].location, l));
            }
            lemma_lex_order(s, i + 1, acc);
        } else if c == '/' {
            if i + 1 < s.len() && s[i + 1] == '/' {
                let e = span(s, i + 2, CharClass::NotNewline);
                lemma_span(s, i + 2, CharClass::NotNewline);
                lemma_location_order(s, i, e);
                let x = mk(Token::Comment, s.subrange(i + 2, e), l);
                lemma_push_ordered(acc, x, location_at(s, e));
                lemma_lex_order(s, e, acc.push(x));
            } else if i + 1 < s.len() && s[i + 1] == '*' {
                lemma_block_end(s, i + 2);
                if let Some(k) = block_end(s, i + 2) {
                    lemma_location_order(s, i, k + 2);
                    let x = mk(Token::Comment, s.subrange(i + 2, k), l);
                    lemma_push_ordered(acc, x, location_at(s, k + 2));
                    lemma_lex_order(s, k + 2, acc.push(x));
                }
            }
        } else if is_letter(c) {
            let e = span(s, i, CharClass::Word);
            lemma_span(s, i, CharClass::Word);
            let w = s.subrange(i, e);
            let kind = match keyword(w) {
                Some(k) => k,
                None => Token::Identifier,
            };
            lemma_location_order(s, i, e);
            let x = mk(kind, w, l);
            lemma_push_ordered(acc, x, location_at(s, e));
            lemma_lex_order(s, e, acc.push(x));
        } else if is_digit(c) || (c == '-' && i + 1 < s.len() && is_digit(s[i + 1])) {
            if let Ok((k, e)) = lex_number(s, i) {
                if i < e <= s.len() {
                    lemma_location_order(s, i, e);
                    let x = mk(k, s.subrange(i, e), l);
                    lemma_push_ordered(acc, x, location_at(s, e));
                    lemma_lex_order(s, e, acc.push(x));
                }
            }
        } else if c == '"' || c == '\'' {
            lemma_lex_string(s, i + 1, c, Seq::empty());
            if let Some((v, e)) = lex_string(s, i + 1, c, Seq::empty()) {
                lemma_location_order(s, i, e);
                let x = mk(Token::StringLiteral, v, l);
                lemma_push_ordered(acc, x, location_at(s, e));
                lemma_lex_order(s, e, acc.push(x));
            }
        } else {
            if let Some(k) = symbol(c) {
                lemma_location_order(s, i, i + 1);
                let x = mk(k, seq![c], l);
                lemma_push_ordered(acc, x, location_at(s, i + 1));
                lemma_lex_order(s, i + 1, acc.push(x));
            }
        }
    }
}

/// The tokens of a text come in the order of their locations in it.
pub proof fn law_tokens_in_text_order(s: Seq<char>)
    requires
        s.len() < usize::MAX,
    ensures
        spec_tokenize(s) matches Ok(t) ==> in_text_order(t),
{
    lemma_lex_order(s, 0, Seq::empty());
}

// ---------------------------------------------------------------------
// Comments

/// Comments before a message, an enum or a service at the top level of a
/// file are skipped: reading from the first comment gives what reading
/// from after the comments gives.
pub proof fn law_top_level_comments_skipped(t: Seq<SpecToken>, q: int, f: SpecProtoFile)
    requires
        0 <= q,
    ensures
        spec_top_level(t, q, f) == spec_top_level(t, skip_comments(t, q), f),
{
    lemma_skip_comments(t, q);
    if q < t.len() && t[q].token == Token::Comment {
        lemma_skip_comments(t, q + 1);
        assert(skip_comments(t, q) == skip_comments(t, q + 1));
    }
}

/// Comments inside the body of a message are skipped: reading the body from
/// the first comment gives what reading it from after the comments gives.
pub proof fn law_message_body_comments_skipped(
    t: Seq<SpecToken>,
    q: int,
    m: SpecMessage,
    ob: Location,
)
    requires
        0 <= q,
    ensures
        spec_message_body(t, q, m, ob) == spec_message_body(t, skip_comments(t, q), m, ob),
{
    lemma_skip_comments(t, q);
    let r = skip_comments(t, q);
    lemma_skip_comments(t, r);
    assert(skip_comments(t, r) == r);
}

/// Comments before an rpc are skipped: reading it from the first comment
/// gives what reading it from after the comments gives.
pub proof fn law_method_comments_skipped(t: Seq<SpecToken>, p: int)
    requires
        0 <= p,
    ensures
        spec_method(t, p) == spec_method(t, skip_comments(t, p)),
{
    lemma_skip_comments(t, p);
    let r = skip_comments(t, p);
    lemma_skip_comments(t, r);
    assert(skip_comments(t, r) == r);
}

/// Comments before a service are skipped: reading it from the first comment
/// gives what reading it from after the comments gives.
pub proof fn law_service_comments_skipped(t: Seq<SpecToken>, p: int)
    requires
        0 <= p,
    ensures
        spec_service(t, p) == spec_service(t, skip_comments(t, p)),
{
    lemma_skip_comments(t, p);
    let r = skip_comments(t, p);
    lemma_skip_comments(t, r);
    assert(skip_comments(t, r) == r);
}

// ---------------------------------------------------------------------
// Names

/// A type name of two identifiers with a dot between them, and then `)`, is
/// the two joined by one `.`; the `)` is left unread.
pub proof fn law_type_name_one_dot(t: Seq<SpecToken>, p: int)
    requires
        0 <= p,
        p + 3 < t.len(),
        t[p].token == Token::Identifier,
        t[p + 1].token == Token::Dot,
        t[p + 2].token == Token::Identifier,
        t[p + 3].token == Token::CloseParen,
    ensures
        spec_type(t, p) == Ok::<_, SpecFail>((t[p].value + "."@ + t[p + 2].value, p + 3)),
{
    let a = t[p].value;
    let b = t[p + 2].value;
    let e = Seq::<char>::empty();
    assert(skip_comments(t, p) == p);
    assert(skip_comments(t, p + 1) == p + 1);
    assert(skip_comments(t, p + 2) == p + 2);
    assert(skip_comments(t, p + 3) == p + 3);
    assert(e + a =~= a);
    assert(spec_type_loop(t, p, e, true, false) == spec_type_loop(t, p + 1, a, false, false));
    assert(spec_type_loop(t, p + 1, a, false, false) == spec_type_loop(t, p + 2, a.push('.'), false, true));
    assert(spec_type_loop(t, p + 2, a.push('.'), false, true) == spec_type_loop(
        t,
        p + 3,
        a.push('.') + b,
        false,
        false,
    ));
    assert(a.push('.') + b =~= a + "."@ + b) by {
        reveal_strlit(".");
    }
    assert((a + "."@ + b).len() > 0) by {
        reveal_strlit(".");
    }
}

/// A type name that begins with a dot is an error, reported at that dot,
/// where reading stops.
pub proof fn law_type_name_leading_dot(t: Seq<SpecToken>, p: int)
    requires
        0 <= p,
        skip_comments(t, p) < t.len(),
        t[skip_comments(t, p)].token == Token::Dot,
    ensures
        spec_type(t, p) == Err::<(Seq<char>, int), _>(
            (
                crate::parser::error::SpecParseError::UnexpectedToken(
                    "Unexpected dot at the beginning of type name"@,
                    t[skip_comments(t, p)].location,
                ),
                skip_comments(t, p),
            ),
        ),
{
    lemma_skip_comments(t, p);
}

// ---------------------------------------------------------------------
// Digits

/// Each digit stands for its place in `0123456789abcdef`, and an upper-case
/// letter for the same value as its lower-case form.
pub proof fn law_digit_values()
    ensures
        forall|i: int| 0 <= i < 16 ==> #[trigger] digit_value("0123456789abcdef"@[i]) == i,
        forall|i: int| 10 <= i < 16 ==> #[trigger] digit_value("0123456789ABCDEF"@[i]) == i,
{
    reveal_strlit("0123456789abcdef");
    reveal_strlit("0123456789ABCDEF");
    assert forall|i: int| 0 <= i < 16 implies #[trigger] digit_value("0123456789abcdef"@[i]) == i by {
        let s = "0123456789abcdef"@;
        if i == 0 { assert(s[i] == '0'); } else if i == 1 { assert(s[i] == '1'); }
        else if i == 2 { assert(s[i] == '2'); } else if i == 3 { assert(s[i] == '3'); }
        else if i == 4 { assert(s[i] == '4'); } else if i == 5 { assert(s[i] == '5'); }
        else if i == 6 { assert(s[i] == '6'); } else if i == 7 { assert(s[i] == '7'); }
        else if i == 8 { assert(s[i] == '8'); } else if i == 9 { assert(s[i] == '9'); }
        else if i == 10 { assert(s[i] == 'a'); } else if i == 11 { assert(s[i] == 'b'); }
        else if i == 12 { assert(s[i] == 'c'); } else if i == 13 { assert(s[i] == 'd'); }
        else if i == 14 { assert(s[i] == 'e'); } else { assert(s[i] == 'f'); }
    }
    assert forall|i: int| 10 <= i < 16 implies #[trigger] digit_value("0123456789ABCDEF"@[i]) == i by {
        let s = "0123456789ABCDEF"@;
        if i == 10 { assert(s[i] == 'A'); } else if i == 11 { assert(s[i] == 'B'); }
        else if i == 12 { assert(s[i] == 'C'); } else if i == 13 { assert(s[i] == 'D'); }
        else if i == 14 { assert(s[i] == 'E'); } else { assert(s[i] == 'F'); }
    }
}

// ---------------------------------------------------------------------
// Punctuation and escapes

/// Each punctuation character stands for its own kind of token, and no
/// other character is punctuation.
pub proof fn law_symbols()
    ensures
        symbol('=') == Some(Token::Equals),
        symbol(';') == Some(Token::Semicolon),
        symbol('.') == Some(Token::Dot),
        symbol(',') == Some(Token::Comma),
        symbol('{') == Some(Token::OpenBrace),
        symbol('}') == Some(Token::CloseBrace),
        symbol('[') == Some(Token::OpenBracket),
        symbol(']') == Some(Token::CloseBracket),
        symbol('(') == Some(Token::OpenParen),
        symbol(')') == Some(Token::CloseParen),
        symbol('<') == Some(Token::LessThan),
        symbol('>') == Some(Token::GreaterThan),
        forall|c: char| #![trigger symbol(c)] !"=;.,{}[]()<>"@.contains(c) ==> symbol(c) is None,
{
    reveal_strlit("=;.,{}[]()<>");
    assert forall|c: char| #![trigger symbol(c)] !"=;.,{}[]()<>"@.contains(c) implies symbol(c) is None by {
        let s = "=;.,{}[]()<>"@;
        assert(s[0] == '=' && s[1] == ';' && s[2] == '.' && s[3] == ',' && s[4] == '{' && s[5]
            == '}' && s[6] == '[' && s[7] == ']' && s[8] == '(' && s[9] == ')' && s[10] == '<'
            && s[11] == '>');
        if symbol(c) is Some {
            if c == '=' { assert(s[0] == c); } else if c == ';' {
                assert(s[1] == c);
            } else if c == '.' { assert(s[2] == c); } else if c == ',' { assert(s[3] == c); }
            else if c == '{' { assert(s[4] == c); } else if c == '}' { assert(s[5] == c); }
            else if c == '[' { assert(s[6] == c); } else if c == ']' { assert(s[7] == c); }
            else if c == '(' { assert(s[8] == c); } else if c == ')' { assert(s[9] == c); }
            else if c == '<' { assert(s[10] == c); } else { assert(s[11] == c); }
        }
    }
}

/// In a string literal, `\n`, `\t`, `\r` and `\0` stand for a newline, a
/// tab, a carriage return and a NUL; after a backslash any other character
/// stands for itself.
pub proof fn law_escapes()
    ensures
        unescape('n') == '\n',
        unescape('t') == '\t',
        unescape('r') == '\r',
        unescape('0') == '\0',
        forall|c: char| #![trigger unescape(c)] c != 'n' && c != 't' && c != 'r' && c != '0' ==> unescape(c) == c,
{
}

} // verus!
