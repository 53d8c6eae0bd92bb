//! The lexer: from the text of a Protobuf file to its tokens.
//!
//! `spec_tokenize` says what the tokens of a text are; `tokenize` computes them.
use vstd::prelude::*;
use vstd::string::*;

use crate::parser::error::{Location, ParseError, SpecParseError};
use crate::parser::token::{tv, SpecToken, Token, TokenWithLocation};
use crate::text::{push_char, str_eq};

verus! {

// ---------------------------------------------------------------------
// Locations

/// Line and column (both from 1) after stepping over character `c`.
pub open spec fn step_line_col(l: (int, int), c: char) -> (int, int) {
    if c == '\n' {
        (l.0 + 1, 1)
    } else {
        (l.0, l.1 + 1)
    }
}

/// Line and column of position `i` of the text.
pub open spec fn line_col(s: Seq<char>, i: int) -> (int, int)
    decreases i,
{
    if i <= 0 {
        (1, 1)
    } else {
        step_line_col(line_col(s, i - 1), s[i - 1])
    }
}

pub proof fn lemma_line_col_bounds(s: Seq<char>, i: int)
    requires
        0 <= i,
    ensures
        1 <= line_col(s, i).0 <= i + 1,
        1 <= line_col(s, i).1 <= i + 1,
    decreases i,
{
    if i > 0 {
        lemma_line_col_bounds(s, i - 1);
    }
}

/// The location of position `i` of the text.
pub open spec fn location_at(s: Seq<char>, i: int) -> Location {
    Location { line: line_col(s, i).0 as usize, column: line_col(s, i).1 as usize }
}

// ---------------------------------------------------------------------
// Classes of characters

pub open spec fn is_space(c: char) -> bool {
    c == ' ' || c == '\t' || c == '\n' || c == '\r'
}

pub open spec fn is_letter(c: char) -> bool {
    ('a' <= c && c <= 'z') || ('A' <= c && c <= 'Z') || c == '_'
}

pub open spec fn is_digit(c: char) -> bool {
    '0' <= c && c <= '9'
}

pub open spec fn is_hex_digit(c: char) -> bool {
    is_digit(c) || ('a' <= c && c <= 'f') || ('A' <= c && c <= 'F')
}

pub open spec fn is_octal_digit(c: char) -> bool {
    '0' <= c && c <= '7'
}

/// The classes of characters that the lexer reads runs of.
#[derive(Clone, Copy, PartialEq, Eq, Structural)]
pub enum CharClass {
    Word,
    Digit,
    HexDigit,
    OctalDigit,
    NotNewline,
}

pub open spec fn in_class(k: CharClass, c: char) -> bool {
    match k {
        CharClass::Word => is_letter(c) || is_digit(c),
        CharClass::Digit => is_digit(c),
        CharClass::HexDigit => is_hex_digit(c),
        CharClass::OctalDigit => is_octal_digit(c),
        CharClass::NotNewline => c != '\n',
    }
}

/// The end of the run of characters of class `k` that starts at `i`.
pub open spec fn span(s: Seq<char>, i: int, k: CharClass) -> int
    decreases s.len() - i,
{
    if 0 <= i < s.len() && in_class(k, s[i]) {
        span(s, i + 1, k)
    } else {
        i
    }
}

pub proof fn lemma_span(s: Seq<char>, i: int, k: CharClass)
    requires
        0 <= i,
    ensures
        i <= span(s, i, k),
        i <= s.len() ==> span(s, i, k) <= s.len(),
        forall|j: int| i <= j < span(s, i, k) ==> in_class(k, #[trigger] s[j]),
        span(s, i, k) < s.len() ==> !in_class(k, s[span(s, i, k)]),
    decreases s.len() - i,
{
    if 0 <= i < s.len() && in_class(k, s[i]) {
        lemma_span(s, i + 1, k);
    }
}

/// The position of the first `*/` at or after `i`, if there is one.
pub open spec fn block_end(s: Seq<char>, i: int) -> Option<int>
    decreases s.len() - i,
{
    if i < 0 || i + 1 >= s.len() {
        None
    } else if s[i] == '*' && s[i + 1] == '/' {
        Some(i)
    } else {
        block_end(s, i + 1)
    }
}

pub proof fn lemma_block_end(s: Seq<char>, i: int)
    requires
        0 <= i,
    ensures
        block_end(s, i) matches Some(k) ==> i <= k && k + 1 < s.len(),
    decreases s.len() - i,
{
    if !(i + 1 >= s.len()) && !(s[i] == '*' && s[i + 1] == '/') {
        lemma_block_end(s, i + 1);
    }
}

// ---------------------------------------------------------------------
// Words, numbers and strings

/// The keyword that a word spells, if it spells one.
pub open spec fn keyword(w: Seq<char>) -> Option<Token> {
    if w == "syntax"@ {
        Some(Token::Syntax)
    } else if w == "package"@ {
        Some(Token::Package)
    } else if w == "import"@ {
        Some(Token::Import)
    } else if w == "public"@ {
        Some(Token::Public)
    } else if w == "weak"@ {
        Some(Token::Weak)
    } else if w == "option"@ {
        Some(Token::Option)
    } else if w == "message"@ {
        Some(Token::Message)
    } else if w == "enum"@ {
        Some(Token::Enum)
    } else if w == "service"@ {
        Some(Token::Service)
    } else if w == "rpc"@ {
        Some(Token::Rpc)
    } else if w == "returns"@ {
        Some(Token::Returns)
    } else if w == "stream"@ {
        Some(Token::Stream)
    } else if w == "reserved"@ {
        Some(Token::Reserved)
    } else if w == "to"@ {
        Some(Token::To)
    } else if w == "oneof"@ {
        Some(Token::Oneof)
    } else if w == "repeated"@ {
        Some(Token::Repeated)
    } else if w == "required"@ {
        Some(Token::Required)
    } else if w == "map"@ {
        Some(Token::MapKeyword)
    } else if w == "string"@ {
        Some(Token::StringType)
    } else {
        None
    }
}

/// The value of a digit (of any base up to 16).
pub open spec fn digit_value(c: char) -> int {
    if is_digit(c) {
        c as int - '0' as int
    } else if 'a' <= c && c <= 'f' {
        c as int - 'a' as int + 10
    } else {
        c as int - 'A' as int + 10
    }
}

/// The value of a sequence of digits in the given base.
pub open spec fn digits_value(ds: Seq<char>, base: int) -> int
    decreases ds.len(),
{
    if ds.len() == 0 {
        0
    } else {
        digits_value(ds.drop_last(), base) * base + digit_value(ds.last())
    }
}

/// A signed magnitude as an `i64`, where it fits.
pub open spec fn signed_value(neg: bool, mag: int) -> Option<i64> {
    if mag > i64::MAX {
        None
    } else if neg {
        Some((-mag) as i64)
    } else {
        Some(mag as i64)
    }
}

/// A number that starts at `i`: its kind and where it ends, or an error.
pub open spec fn lex_number(s: Seq<char>, i: int) -> Result<(Token, int), SpecParseError> {
    let neg = s[i] == '-';
    let d = if neg {
        i + 1
    } else {
        i
    };
    let l = location_at(s, i);
    if s[d] == '0' && d + 1 < s.len() && (s[d + 1] == 'x' || s[d + 1] == 'X') {
        let e = span(s, d + 2, CharClass::HexDigit);
        if e == d + 2 {
            Err(SpecParseError::InvalidNumber(s.subrange(i, e), l))
        } else {
            match signed_value(neg, digits_value(s.subrange(d + 2, e), 16)) {
                None => Err(SpecParseError::InvalidNumber(s.subrange(i, e), l)),
                Some(v) => Ok((Token::HexIntLiteral(v), e)),
            }
        }
    } else {
        let j = span(s, d, CharClass::Digit);
        let has_frac = j < s.len() && s[j] == '.';
        let k = if has_frac {
            span(s, j + 1, CharClass::Digit)
        } else {
            j
        };
        let has_exp = k < s.len() && (s[k] == 'e' || s[k] == 'E');
        if has_exp {
            let m = if k + 1 < s.len() && (s[k + 1] == '+' || s[k + 1] == '-') {
                k + 2
            } else {
                k + 1
            };
            let e = span(s, m, CharClass::Digit);
            if e == m {
                Err(SpecParseError::InvalidNumber(s.subrange(i, e), l))
            } else {
                Ok((Token::FloatLiteral, e))
            }
        } else if has_frac {
            Ok((Token::FloatLiteral, k))
        } else if s[d] == '0' && j > d + 1 {
            if span(s, d + 1, CharClass::OctalDigit) != j {
                Err(SpecParseError::InvalidNumber(s.subrange(i, j), l))
            } else {
                match signed_value(neg, digits_value(s.subrange(d + 1, j), 8)) {
                    None => Err(SpecParseError::InvalidNumber(s.subrange(i, j), l)),
                    Some(v) => Ok((Token::OctalIntLiteral(v), j)),
                }
            }
        } else {
            match signed_value(neg, digits_value(s.subrange(d, j), 10)) {
                None => Err(SpecParseError::InvalidNumber(s.subrange(i, j), l)),
                Some(v) => Ok((Token::DecimalIntLiteral(v), j)),
            }
        }
    }
}

/// The character that an escape `\c` stands for.
pub open spec fn unescape(c: char) -> char {
    if c == 'n' {
        '\n'
    } else if c == 't' {
        '\t'
    } else if c == 'r' {
        '\r'
    } else if c == '0' {
        '\0'
    } else {
        c
    }
}

/// The rest of a string literal from `j` up to the closing quote `q`: its
/// contents (after `acc`) and the position after the quote.
pub open spec fn lex_string(s: Seq<char>, j: int, q: char, acc: Seq<char>) -> Option<
    (Seq<char>, int),
>
    decreases s.len() - j,
{
    if j < 0 || j >= s.len() {
        None
    } else if s[j] == q {
        Some((acc, j + 1))
    } else if s[j] == '\\' {
        if j + 1 >= s.len() {
            None
        } else {
            lex_string(s, j + 2, q, acc.push(unescape(s[j + 1])))
        }
    } else {
        lex_string(s, j + 1, q, acc.push(s[j]))
    }
}

pub proof fn lemma_lex_string(s: Seq<char>, j: int, q: char, acc: Seq<char>)
    requires
        0 <= j,
    ensures
        lex_string(s, j, q, acc) matches Some((v, e)) ==> j < e <= s.len(),
    decreases s.len() - j,
{
    if j < s.len() && s[j] != q {
        if s[j] == '\\' {
            if j + 1 < s.len() {
                lemma_lex_string(s, j + 2, q, acc.push(unescape(s[j + 1])));
            }
        } else {
            lemma_lex_string(s, j + 1, q, acc.push(s[j]));
        }
    }
}

/// The token kind of a punctuation character.
pub open spec fn symbol(c: char) -> Option<Token> {
    if c == '=' {
        Some(Token::Equals)
    } else if c == ';' {
        Some(Token::Semicolon)
    } else if c == '.' {
        Some(Token::Dot)
    } else if c == ',' {
        Some(Token::Comma)
    } else if c == '{' {
        Some(Token::OpenBrace)
    } else if c == '}' {
        Some(Token::CloseBrace)
    } else if c == '[' {
        Some(Token::OpenBracket)
    } else if c == ']' {
        Some(Token::CloseBracket)
    } else if c == '(' {
        Some(Token::OpenParen)
    } else if c == ')' {
        Some(Token::CloseParen)
    } else if c == '<' {
        Some(Token::LessThan)
    } else if c == '>' {
        Some(Token::GreaterThan)
    } else {
        None
    }
}

pub open spec fn mk(token: Token, value: Seq<char>, location: Location) -> SpecToken {
    SpecToken { token, value, location }
}

/// The tokens of the text from position `i`, after the tokens `acc`.
pub open spec fn lex_from(s: Seq<char>, i: int, acc: Seq<SpecToken>) -> Result<
    Seq<SpecToken>,
    SpecParseError,
>
    decreases s.len() - i,
{
    if i < 0 || i >= s.len() {
        Ok(acc)
    } else {
        let c = s[i];
        let l = location_at(s, i);
        if is_space(c) {
            lex_from(s, i + 1, acc)
        } else if c == '/' {
            if i + 1 < s.len() && s[i + 1] == '/' {
                let e = span(s, i + 2, CharClass::NotNewline);
                proof {
                    lemma_span(s, i + 2, CharClass::NotNewline);
                }
                lex_from(s, e, acc.push(mk(Token::Comment, s.subrange(i + 2, e), l)))
            } else if i + 1 < s.len() && s[i + 1] == '*' {
                proof {
                    lemma_block_end(s, i + 2);
                }
                match block_end(s, i + 2) {
                    None => Err(SpecParseError::UnterminatedComment(l)),
                    Some(k) => lex_from(
                        s,
                        k + 2,
                        acc.push(mk(Token::Comment, s.subrange(i + 2, k), l)),
                    ),
                }
            } else {
                Err(SpecParseError::UnexpectedCharacter(c, l))
            }
        } else if is_letter(c) {
            let e = span(s, i, CharClass::Word);
            proof {
                lemma_span(s, i, CharClass::Word);
            }
            let w = s.subrange(i, e);
            let kind = match keyword(w) {
                Some(k) => k,
                None => Token::Identifier,
            };
            lex_from(s, e, acc.push(mk(kind, w, l)))
        } else if is_digit(c) || (c == '-' && i + 1 < s.len() && is_digit(s[i + 1])) {
            match lex_number(s, i) {
                Err(err) => Err(err),
                Ok((k, e)) => if i < e <= s.len() {
                    lex_from(s, e, acc.push(mk(k, s.subrange(i, e), l)))
                } else {
                    Err(SpecParseError::InvalidNumber(Seq::empty(), l))
                },
            }
        } else if c == '"' || c == '\'' {
            proof {
                lemma_lex_string(s, i + 1, c, Seq::empty());
            }
            match lex_string(s, i + 1, c, Seq::empty()) {
                None => Err(SpecParseError::UnterminatedString(l)),
                Some((v, e)) => lex_from(s, e, acc.push(mk(Token::StringLiteral, v, l))),
            }
        } else {
            match symbol(c) {
                Some(k) => lex_from(s, i + 1, acc.push(mk(k, seq![c], l))),
                None => Err(SpecParseError::UnexpectedCharacter(c, l)),
            }
        }
    }
}

/// The tokens of a text, or the error that stops the lexer.
pub open spec fn spec_tokenize(s: Seq<char>) -> Result<Seq<SpecToken>, SpecParseError> {
    lex_from(s, 0, Seq::empty())
}

// ---------------------------------------------------------------------
// The lexer

/// The characters of a string, in order.
fn chars_of(input: &str) -> (v: Vec<char>)
    ensures
        v@ == input@,
{
    let mut v: Vec<char> = Vec::new();
    for c in it: input.chars()
        invariant
            v@ == it.seq().take(it.index() as int),
    {
        v.push(c);
    }
    v
}

fn is_space_char(c: char) -> (r: bool)
    ensures
        r == is_space(c),
{
    c == ' ' || c == '\t' || c == '\n' || c == '\r'
}

fn is_letter_char(c: char) -> (r: bool)
    ensures
        r == is_letter(c),
{
    ('a' <= c && c <= 'z') || ('A' <= c && c <= 'Z') || c == '_'
}

fn is_digit_char(c: char) -> (r: bool)
    ensures
        r == is_digit(c),
{
    '0' <= c && c <= '9'
}

fn char_in_class(k: CharClass, c: char) -> (r: bool)
    ensures
        r == in_class(k, c),
{
    match k {
        CharClass::Word => is_letter_char(c) || is_digit_char(c),
        CharClass::Digit => is_digit_char(c),
        CharClass::HexDigit => is_digit_char(c) || ('a' <= c && c <= 'f') || ('A' <= c && c
            <= 'F'),
        CharClass::OctalDigit => '0' <= c && c <= '7',
        CharClass::NotNewline => c != '\n',
    }
}

/// The end of the run of characters of class `k` that starts at `i`.
fn span_of(chars: &Vec<char>, i: usize, k: CharClass) -> (r: usize)
    requires
        i <= chars.len(),
    ensures
        r == span(chars@, i as int, k),
        i <= r <= chars.len(),
{
    proof {
        lemma_span(chars@, i as int, k);
    }
    let mut j = i;
    while j < chars.len() && char_in_class(k, chars[j])
        invariant
            i <= j <= chars.len(),
            span(chars@, j as int, k) == span(chars@, i as int, k),
        decreases chars.len() - j,
    {
        j = j + 1;
    }
    j
}

/// The position of the first `*/` at or after `i`, if there is one.
fn find_block_end(chars: &Vec<char>, i: usize) -> (r: Option<usize>)
    ensures
        match r {
            Some(k) => block_end(chars@, i as int) == Some(k as int),
            None => block_end(chars@, i as int) is None,
        },
{
    let mut j = i;
    while j < chars.len() && j + 1 < chars.len()
        invariant
            i <= j,
            block_end(chars@, j as int) == block_end(chars@, i as int),
        decreases chars.len() - j,
    {
        if chars[j] == '*' && chars[j + 1] == '/' {
            return Some(j);
        }
        j = j + 1;
    }
    None
}

/// The characters from `i` to `j`, as a string.
fn substring(chars: &Vec<char>, i: usize, j: usize) -> (r: String)
    requires
        i <= j <= chars.len(),
    ensures
        r@ == chars@.subrange(i as int, j as int),
{
    let mut s = String::new();
    let mut k = i;
    while k < j
        invariant
            i <= k <= j <= chars.len(),
            s@ == chars@.subrange(i as int, k as int),
        decreases j - k,
    {
        push_char(&mut s, chars[k]);
        k = k + 1;
        assert(s@ =~= chars@.subrange(i as int, k as int));
    }
    s
}

/// The keyword that a word spells, if it spells one.
fn keyword_of(w: &str) -> (r: Option<Token>)
    ensures
        r == keyword(w@),
{
    if str_eq(w, "syntax") {
        Some(Token::Syntax)
    } else if str_eq(w, "package") {
        Some(Token::Package)
    } else if str_eq(w, "import") {
        Some(Token::Import)
    } else if str_eq(w, "public") {
        Some(Token::Public)
    } else if str_eq(w, "weak") {
        Some(Token::Weak)
    } else if str_eq(w, "option") {
        Some(Token::Option)
    } else if str_eq(w, "message") {
        Some(Token::Message)
    } else if str_eq(w, "enum") {
        Some(Token::Enum)
    } else if str_eq(w, "service") {
        Some(Token::Service)
    } else if str_eq(w, "rpc") {
        Some(Token::Rpc)
    } else if str_eq(w, "returns") {
        Some(Token::Returns)
    } else if str_eq(w, "stream") {
        Some(Token::Stream)
    } else if str_eq(w, "reserved") {
        Some(Token::Reserved)
    } else if str_eq(w, "to") {
        Some(Token::To)
    } else if str_eq(w, "oneof") {
        Some(Token::Oneof)
    } else if str_eq(w, "repeated") {
        Some(Token::Repeated)
    } else if str_eq(w, "required") {
        Some(Token::Required)
    } else if str_eq(w, "map") {
        Some(Token::MapKeyword)
    } else if str_eq(w, "string") {
        Some(Token::StringType)
    } else {
        None
    }
}

/// The token kind of a punctuation character.
fn symbol_of(c: char) -> (r: Option<Token>)
    ensures
        r == symbol(c),
{
    if c == '=' {
        Some(Token::Equals)
    } else if c == ';' {
        Some(Token::Semicolon)
    } else if c == '.' {
        Some(Token::Dot)
    } else if c == ',' {
        Some(Token::Comma)
    } else if c == '{' {
        Some(Token::OpenBrace)
    } else if c == '}' {
        Some(Token::CloseBrace)
    } else if c == '[' {
        Some(Token::OpenBracket)
    } else if c == ']' {
        Some(Token::CloseBracket)
    } else if c == '(' {
        Some(Token::OpenParen)
    } else if c == ')' {
        Some(Token::CloseParen)
    } else if c == '<' {
        Some(Token::LessThan)
    } else if c == '>' {
        Some(Token::GreaterThan)
    } else {
        None
    }
}

/// Values of digit sequences are not negative.
pub proof fn lemma_digits_value_nonneg(s: Seq<char>, a: int, k: int, base: int)
    requires
        0 <= a <= k <= s.len(),
        base >= 1,
        forall|j: int| a <= j < k ==> 0 <= #[trigger] digit_value(s[j]),
    ensures
        0 <= digits_value(s.subrange(a, k), base),
    decreases k - a,
{
    if k > a {
        lemma_digits_value_nonneg(s, a, k - 1, base);
        assert(s.subrange(a, k).drop_last() =~= s.subrange(a, k - 1));
        assert(0 <= digit_value(s[k - 1]));
        let x = digits_value(s.subrange(a, k - 1), base);
        assert(x * base >= 0) by (nonlinear_arith)
            requires
                x >= 0,
                base >= 1,
        ;
    }
}

/// Values of digit sequences never decrease as digits are added.
pub proof fn lemma_digits_value_grows(s: Seq<char>, a: int, k: int, b: int, base: int)
    requires
        0 <= a <= k <= b <= s.len(),
        base >= 1,
        forall|j: int| a <= j < b ==> 0 <= #[trigger] digit_value(s[j]),
    ensures
        0 <= digits_value(s.subrange(a, k), base),
        digits_value(s.subrange(a, k), base) <= digits_value(s.subrange(a, b), base),
    decreases b - k,
{
    lemma_digits_value_nonneg(s, a, k, base);
    if b > k {
        lemma_digits_value_grows(s, a, k, b - 1, base);
        lemma_digits_value_nonneg(s, a, b - 1, base);
        assert(s.subrange(a, b).drop_last() =~= s.subrange(a, b - 1));
        assert(0 <= digit_value(s[b - 1]));
        let x = digits_value(s.subrange(a, b - 1), base);
        assert(x * base >= x) by (nonlinear_arith)
            requires
                x >= 0,
                base >= 1,
        ;
    }
}

/// The value of a digit of base 16 or less.
fn digit_of(c: char) -> (d: i64)
    requires
        is_hex_digit(c),
    ensures
        d == digit_value(c),
        0 <= d < 16,
{
    if '0' <= c && c <= '9' {
        ((c as u32) - ('0' as u32)) as i64
    } else if 'a' <= c && c <= 'f' {
        ((c as u32) - ('a' as u32) + 10) as i64
    } else {
        ((c as u32) - ('A' as u32) + 10) as i64
    }
}

/// The value of the digits from `a` to `b` in the given base, negated if
/// `neg`, where it fits in an `i64`.
fn digits_to_i64(chars: &Vec<char>, a: usize, b: usize, base: i64, neg: bool) -> (r: Option<i64>)
    requires
        a <= b <= chars.len(),
        2 <= base <= 16,
        forall|j: int| a <= j < b ==> is_hex_digit(#[trigger] chars@[j]) && digit_value(chars@[j]) < base,
    ensures
        r == signed_value(neg, digits_value(chars@.subrange(a as int, b as int), base as int)),
{
    let ghost s = chars@;
    let mut acc: i64 = 0;
    let mut k = a;
    assert(s.subrange(a as int, a as int) =~= Seq::<char>::empty());
    while k < b
        invariant
            s == chars@,
            a <= k <= b <= chars.len(),
            2 <= base <= 16,
            forall|j: int| a <= j < b ==> is_hex_digit(#[trigger] s[j]) && digit_value(s[j]) < base,
            acc as int == digits_value(s.subrange(a as int, k as int), base as int),
            acc >= 0,
        decreases b - k,
    {
        let d = digit_of(chars[k]);
        proof {
            assert(s.subrange(a as int, k + 1).drop_last() =~= s.subrange(a as int, k as int));
            assert forall|j: int| a <= j < b implies 0 <= #[trigger] digit_value(s[j]) by {
                assert(is_hex_digit(s[j]));
            }
            lemma_digits_value_grows(s, a as int, k + 1, b as int, base as int);
        }
        match acc.checked_mul(base) {
            None => {
                proof {
                    assert(acc * base + d >= acc * base) by (nonlinear_arith)
                        requires
                            d >= 0,
                    ;
                }
                return None;
            },
            Some(m) => match m.checked_add(d) {
                None => {
                    return None;
                },
                Some(v) => {
                    acc = v;
                },
            },
        }
        k = k + 1;
    }
    if neg {
        Some(-acc)
    } else {
        Some(acc)
    }
}

/// Reads the number that starts at `i` (located at `l`): its kind and where it ends.
fn lex_number_at(chars: &Vec<char>, i: usize, l: Location) -> (r: Result<(Token, usize), ParseError>)
    requires
        i < chars.len(),
        is_digit(chars@[i as int]) || (chars@[i as int] == '-' && i + 1 < chars.len() && is_digit(
            chars@[i + 1],
        )),
        l == location_at(chars@, i as int),
    ensures
        match r {
            Ok((k, e)) => lex_number(chars@, i as int) == Ok::<_, SpecParseError>((k, e as int)),
            Err(err) => lex_number(chars@, i as int) == Err::<(Token, int), _>(err@),
        },
        r matches Ok((k, e)) ==> i < e <= chars.len(),
{
    let ghost s = chars@;
    let neg = chars[i] == '-';
    let d = if neg {
        i + 1
    } else {
        i
    };
    if chars[d] == '0' && d + 1 < chars.len() && (chars[d + 1] == 'x' || chars[d + 1] == 'X') {
        let e = span_of(chars, d + 2, CharClass::HexDigit);
        proof {
            lemma_span(s, d + 2, CharClass::HexDigit);
        }
        if e == d + 2 {
            return Err(ParseError::InvalidNumber(substring(chars, i, e), l));
        }
        proof {
            assert forall|j: int| d + 2 <= j < e implies is_hex_digit(#[trigger] s[j]) && digit_value(s[j]) < 16 by {
                assert(in_class(CharClass::HexDigit, s[j]));
            }
        }
        match digits_to_i64(chars, d + 2, e, 16, neg) {
            None => Err(ParseError::InvalidNumber(substring(chars, i, e), l)),
            Some(v) => Ok((Token::HexIntLiteral(v), e)),
        }
    } else {
        let j = span_of(chars, d, CharClass::Digit);
        proof {
            lemma_span(s, d as int, CharClass::Digit);
        }
        let has_frac = j < chars.len() && chars[j] == '.';
        let k = if has_frac {
            span_of(chars, j + 1, CharClass::Digit)
        } else {
            j
        };
        let has_exp = k < chars.len() && (chars[k] == 'e' || chars[k] == 'E');
        if has_exp {
            let m = if k + 1 < chars.len() && (chars[k + 1] == '+' || chars[k + 1] == '-') {
                k + 2
            } else {
                k + 1
            };
            let e = span_of(chars, m, CharClass::Digit);
            if e == m {
                Err(ParseError::InvalidNumber(substring(chars, i, e), l))
            } else {
                Ok((Token::FloatLiteral, e))
            }
        } else if has_frac {
            Ok((Token::FloatLiteral, k))
        } else if chars[d] == '0' && j > d + 1 {
            let o = span_of(chars, d + 1, CharClass::OctalDigit);
            if o != j {
                return Err(ParseError::InvalidNumber(substring(chars, i, j), l));
            }
            proof {
                lemma_span(s, d + 1, CharClass::OctalDigit);
                assert forall|x: int| d + 1 <= x < j implies is_hex_digit(#[trigger] s[x]) && digit_value(s[x]) < 8 by {
                    assert(in_class(CharClass::OctalDigit, s[x]));
                }
            }
            match digits_to_i64(chars, d + 1, j, 8, neg) {
                None => Err(ParseError::InvalidNumber(substring(chars, i, j), l)),
                Some(v) => Ok((Token::OctalIntLiteral(v), j)),
            }
        } else {
            proof {
                assert forall|x: int| d <= x < j implies is_hex_digit(#[trigger] s[x]) && digit_value(s[x]) < 10 by {
                    assert(in_class(CharClass::Digit, s[x]));
                }
            }
            match digits_to_i64(chars, d, j, 10, neg) {
                None => Err(ParseError::InvalidNumber(substring(chars, i, j), l)),
                Some(v) => Ok((Token::DecimalIntLiteral(v), j)),
            }
        }
    }
}

/// The character that an escape `\c` stands for.
fn unescape_char(c: char) -> (r: char)
    ensures
        r == unescape(c),
{
    if c == 'n' {
        '\n'
    } else if c == 't' {
        '\t'
    } else if c == 'r' {
        '\r'
    } else if c == '0' {
        '\0'
    } else {
        c
    }
}

/// Reads the rest of a string literal from `j` up to the closing quote `q`:
/// its contents and the position after the quote.
fn lex_string_at(chars: &Vec<char>, j: usize, q: char) -> (r: Option<(String, usize)>)
    ensures
        match r {
            Some((v, e)) => lex_string(chars@, j as int, q, Seq::empty()) == Some((v@, e as int)),
            None => lex_string(chars@, j as int, q, Seq::empty()) is None,
        },
{
    let mut acc = String::new();
    let mut k = j;
    while k < chars.len()
        invariant
            j <= k,
            lex_string(chars@, k as int, q, acc@) == lex_string(chars@, j as int, q, Seq::empty()),
        decreases chars.len() - k,
    {
        let c = chars[k];
        if c == q {
            return Some((acc, k + 1));
        } else if c == '\\' {
            if k + 1 >= chars.len() {
                return None;
            }
            push_char(&mut acc, unescape_char(chars[k + 1]));
            k = k + 2;
        } else {
            push_char(&mut acc, c);
            k = k + 1;
        }
    }
    None
}

/// The line and column of position `to`, from those of position `from`.
fn advance_location(chars: &Vec<char>, from: usize, to: usize, line: usize, column: usize) -> (r: (
    usize,
    usize,
))
    requires
        from <= to <= chars.len(),
        from < chars.len() ==> (line as int, column as int) == line_col(chars@, from as int),
    ensures
        to < chars.len() ==> (r.0 as int, r.1 as int) == line_col(chars@, to as int),
{
    let mut k = from;
    let mut line = line;
    let mut column = column;
    while k < to
        invariant
            from <= k <= to <= chars.len(),
            k < chars.len() ==> (line as int, column as int) == line_col(chars@, k as int),
        decreases to - k,
    {
        proof {
            lemma_line_col_bounds(chars@, k + 1);
        }
        if chars[k] == '\n' {
            line = line.saturating_add(1);
            column = 1;
        } else {
            column = column.saturating_add(1);
        }
        k = k + 1;
    }
    (line, column)
}

/// The tokens of a text.
pub fn tokenize(input: &str) -> (r: Result<Vec<TokenWithLocation>, ParseError>)
    ensures
        match r {
            Ok(tokens) => spec_tokenize(input@) == Ok::<_, SpecParseError>(tv(tokens@)),
            Err(e) => spec_tokenize(input@) == Err::<Seq<SpecToken>, _>(e@),
        },
{
    let chars = chars_of(input);
    let ghost s = chars@;
    let n = chars.len();
    let mut tokens: Vec<TokenWithLocation> = Vec::new();
    let mut i: usize = 0;
    let mut line: usize = 1;
    let mut column: usize = 1;
    let ghost target = spec_tokenize(s);
    assert(tv(tokens@) =~= Seq::<SpecToken>::empty());
    loop
        invariant
            s == chars@,
            s == input@,
            n == chars.len(),
            target == spec_tokenize(s),
            i <= n,
            i < n ==> (line as int, column as int) == line_col(s, i as int),
            lex_from(s, i as int, tv(tokens@)) == target,
        decreases n - i,
    {
        if i >= n {
            return Ok(tokens);
        }
        proof {
            lemma_line_col_bounds(s, i as int);
        }
        let c = chars[i];
        let l = Location::new(line, column);
        assert(l == location_at(s, i as int));
        let ghost before = tokens@;
        let e: usize;
        if is_space_char(c) {
            e = i + 1;
        } else if c == '/' {
            if i + 1 < n && chars[i + 1] == '/' {
                let end = span_of(&chars, i + 2, CharClass::NotNewline);
                tokens.push(
                    TokenWithLocation {
                        token: Token::Comment,
                        value: substring(&chars, i + 2, end),
                        location: l,
                    },
                );
                e = end;
                proof {
                    lemma_span(s, i + 2, CharClass::NotNewline);
                }
            } else if i + 1 < n && chars[i + 1] == '*' {
                proof {
                    lemma_block_end(s, i + 2);
                }
                match find_block_end(&chars, i + 2) {
                    None => {
                        return Err(ParseError::UnterminatedComment(l));
                    },
                    Some(k) => {
                        tokens.push(
                            TokenWithLocation {
                                token: Token::Comment,
                                value: substring(&chars, i + 2, k),
                                location: l,
                            },
                        );
                        e = k + 2;
                    },
                }
            } else {
                return Err(ParseError::UnexpectedCharacter(c, l));
            }
        } else if is_letter_char(c) {
            let end = span_of(&chars, i, CharClass::Word);
            proof {
                lemma_span(s, i as int, CharClass::Word);
            }
            let w = substring(&chars, i, end);
            let kind = match keyword_of(w.as_str()) {
                Some(k) => k,
                None => Token::Identifier,
            };
            tokens.push(TokenWithLocation { token: kind, value: w, location: l });
            e = end;
        } else if is_digit_char(c) || (c == '-' && i + 1 < n && is_digit_char(chars[i + 1])) {
            let (kind, end) = lex_number_at(&chars, i, l)?;
            tokens.push(
                TokenWithLocation { token: kind, value: substring(&chars, i, end), location: l },
            );
            e = end;
        } else if c == '"' || c == '\'' {
            proof {
                lemma_lex_string(s, i + 1, c, Seq::empty());
            }
            match lex_string_at(&chars, i + 1, c) {
                None => {
                    return Err(ParseError::UnterminatedString(l));
                },
                Some((v, end)) => {
                    tokens.push(TokenWithLocation { token: Token::StringLiteral, value: v, location: l });
                    e = end;
                },
            }
        } else {
            match symbol_of(c) {
                Some(k) => {
                    let mut v = String::new();
                    push_char(&mut v, c);
                    assert(v@ =~= seq![c]);
                    tokens.push(TokenWithLocation { token: k, value: v, location: l });
                    e = i + 1;
                },
                None => {
                    return Err(ParseError::UnexpectedCharacter(c, l));
                },
            }
        }
        proof {
            if tokens@.len() > before.len() {
                lemma_map_push_tokens(before, tokens@.last());
                assert(tokens@ =~= before.push(tokens@.last()));
            }
        }
        let (nl, nc) = advance_location(&chars, i, e, line, column);
        i = e;
        line = nl;
        column = nc;
    }
}

proof fn lemma_map_push_tokens(s: Seq<TokenWithLocation>, x: TokenWithLocation)
    ensures
        tv(s.push(x)) == tv(s).push(x@),
{
    assert(tv(s.push(x)) =~= tv(s).push(x@));
}

} // verus!
