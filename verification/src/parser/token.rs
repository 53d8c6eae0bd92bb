//! The tokens of the Protobuf language.
use vstd::prelude::*;

use crate::parser::error::{signed_decimal, signed_decimal_string, Location};
use crate::text::{concat3, push_char};
use vstd::string::*;

verus! {

/// The kind of a token. The text of identifiers, string literals,
/// floating-point literals and comments is held by `TokenWithLocation::value`.
#[derive(Debug, Clone, Copy, PartialEq, Eq, Structural)]
pub enum Token {
    Syntax,
    Package,
    Import,
    Public,
    Weak,
    Option,
    Message,
    Enum,
    Service,
    Rpc,
    Returns,
    Stream,
    Reserved,
    To,
    Oneof,
    Repeated,
    Required,
    MapKeyword,
    StringType,
    Identifier,
    StringLiteral,
    DecimalIntLiteral(i64),
    OctalIntLiteral(i64),
    HexIntLiteral(i64),
    FloatLiteral,
    Comment,
    Equals,
    Semicolon,
    Dot,
    Comma,
    OpenBrace,
    CloseBrace,
    OpenBracket,
    CloseBracket,
    OpenParen,
    CloseParen,
    LessThan,
    GreaterThan,
}

/// How a kind of token is written by its `Debug` form: the name of the
/// kind, and for an integer literal its value in decimal in parentheses.
/// The `map` keyword is written `Map`.
pub open spec fn kind_debug(k: Token) -> Seq<char> {
    match k {
        Token::Syntax => "Syntax"@,
        Token::Package => "Package"@,
        Token::Import => "Import"@,
        Token::Public => "Public"@,
        Token::Weak => "Weak"@,
        Token::Option => "Option"@,
        Token::Message => "Message"@,
        Token::Enum => "Enum"@,
        Token::Service => "Service"@,
        Token::Rpc => "Rpc"@,
        Token::Returns => "Returns"@,
        Token::Stream => "Stream"@,
        Token::Reserved => "Reserved"@,
        Token::To => "To"@,
        Token::Oneof => "Oneof"@,
        Token::Repeated => "Repeated"@,
        Token::Required => "Required"@,
        Token::MapKeyword => "Map"@,
        Token::StringType => "StringType"@,
        Token::Identifier => "Identifier"@,
        Token::StringLiteral => "StringLiteral"@,
        Token::DecimalIntLiteral(v) => "DecimalIntLiteral("@ + signed_decimal(v as int) + ")"@,
        Token::OctalIntLiteral(v) => "OctalIntLiteral("@ + signed_decimal(v as int) + ")"@,
        Token::HexIntLiteral(v) => "HexIntLiteral("@ + signed_decimal(v as int) + ")"@,
        Token::FloatLiteral => "FloatLiteral"@,
        Token::Comment => "Comment"@,
        Token::Equals => "Equals"@,
        Token::Semicolon => "Semicolon"@,
        Token::Dot => "Dot"@,
        Token::Comma => "Comma"@,
        Token::OpenBrace => "OpenBrace"@,
        Token::CloseBrace => "CloseBrace"@,
        Token::OpenBracket => "OpenBracket"@,
        Token::CloseBracket => "CloseBracket"@,
        Token::OpenParen => "OpenParen"@,
        Token::CloseParen => "CloseParen"@,
        Token::LessThan => "LessThan"@,
        Token::GreaterThan => "GreaterThan"@,
    }
}

/// How a character of a string is written inside the `Debug` form of the
/// string: a double quote, a backslash, a newline, a carriage return, a tab
/// and a NUL character by their escapes, every other character as it is.
pub open spec fn char_debug(c: char) -> Seq<char> {
    if c == '"' {
        seq!['\\', '"']
    } else if c == '\\' {
        seq!['\\', '\\']
    } else if c == '\n' {
        seq!['\\', 'n']
    } else if c == '\r' {
        seq!['\\', 'r']
    } else if c == '\t' {
        seq!['\\', 't']
    } else if c == '\0' {
        seq!['\\', '0']
    } else {
        seq![c]
    }
}

/// The characters of a string, each written by `char_debug`.
pub open spec fn escaped(s: Seq<char>) -> Seq<char>
    decreases s.len(),
{
    if s.len() == 0 {
        Seq::empty()
    } else {
        escaped(s.drop_last()) + char_debug(s.last())
    }
}

/// The `Debug` form of a string: its escaped characters in double quotes.
pub open spec fn str_debug(s: Seq<char>) -> Seq<char> {
    seq!['"'] + escaped(s) + seq!['"']
}

/// How a token is written by its `Debug` form: an identifier, a string
/// literal and a comment carry their text as a `Debug` string, a
/// floating-point literal carries its text as the file wrote it, and every
/// other token is written as its kind.
pub open spec fn token_debug(x: SpecToken) -> Seq<char> {
    match x.token {
        Token::Identifier => "Identifier("@ + str_debug(x.value) + ")"@,
        Token::StringLiteral => "StringLiteral("@ + str_debug(x.value) + ")"@,
        Token::Comment => "Comment("@ + str_debug(x.value) + ")"@,
        Token::FloatLiteral => "FloatLiteral("@ + x.value + ")"@,
        _ => kind_debug(x.token),
    }
}

impl Token {
    /// The `Debug` form of this kind of token.
    pub fn debug_name(&self) -> (r: String)
        ensures
            r@ == kind_debug(*self),
    {
        match self {
            Token::Syntax => String::from_str("Syntax"),
            Token::Package => String::from_str("Package"),
            Token::Import => String::from_str("Import"),
            Token::Public => String::from_str("Public"),
            Token::Weak => String::from_str("Weak"),
            Token::Option => String::from_str("Option"),
            Token::Message => String::from_str("Message"),
            Token::Enum => String::from_str("Enum"),
            Token::Service => String::from_str("Service"),
            Token::Rpc => String::from_str("Rpc"),
            Token::Returns => String::from_str("Returns"),
            Token::Stream => String::from_str("Stream"),
            Token::Reserved => String::from_str("Reserved"),
            Token::To => String::from_str("To"),
            Token::Oneof => String::from_str("Oneof"),
            Token::Repeated => String::from_str("Repeated"),
            Token::Required => String::from_str("Required"),
            Token::MapKeyword => String::from_str("Map"),
            Token::StringType => String::from_str("StringType"),
            Token::Identifier => String::from_str("Identifier"),
            Token::StringLiteral => String::from_str("StringLiteral"),
            Token::DecimalIntLiteral(v) => concat3("DecimalIntLiteral(", signed_decimal_string(*v).as_str(), ")"),
            Token::OctalIntLiteral(v) => concat3("OctalIntLiteral(", signed_decimal_string(*v).as_str(), ")"),
            Token::HexIntLiteral(v) => concat3("HexIntLiteral(", signed_decimal_string(*v).as_str(), ")"),
            Token::FloatLiteral => String::from_str("FloatLiteral"),
            Token::Comment => String::from_str("Comment"),
            Token::Equals => String::from_str("Equals"),
            Token::Semicolon => String::from_str("Semicolon"),
            Token::Dot => String::from_str("Dot"),
            Token::Comma => String::from_str("Comma"),
            Token::OpenBrace => String::from_str("OpenBrace"),
            Token::CloseBrace => String::from_str("CloseBrace"),
            Token::OpenBracket => String::from_str("OpenBracket"),
            Token::CloseBracket => String::from_str("CloseBracket"),
            Token::OpenParen => String::from_str("OpenParen"),
            Token::CloseParen => String::from_str("CloseParen"),
            Token::LessThan => String::from_str("LessThan"),
            Token::GreaterThan => String::from_str("GreaterThan"),
        }
    }
}

/// Appends the escaped characters of `s` to `out`.
fn push_escaped(out: &mut String, s: &str)
    ensures
        final(out)@ == old(out)@ + escaped(s@),
{
    let n = s.unicode_len();
    let mut i: usize = 0;
    while i < n
        invariant
            n == s@.len(),
            i <= n,
            out@ == old(out)@ + escaped(s@.take(i as int)),
        decreases n - i,
    {
        let c = s.get_char(i);
        let ghost before = out@;
        if c == '"' {
            push_char(out, '\\');
            push_char(out, '"');
        } else if c == '\\' {
            push_char(out, '\\');
            push_char(out, '\\');
        } else if c == '\n' {
            push_char(out, '\\');
            push_char(out, 'n');
        } else if c == '\r' {
            push_char(out, '\\');
            push_char(out, 'r');
        } else if c == '\t' {
            push_char(out, '\\');
            push_char(out, 't');
        } else if c == '\0' {
            push_char(out, '\\');
            push_char(out, '0');
        } else {
            push_char(out, c);
        }
        proof {
            assert(s@.take(i + 1).drop_last() =~= s@.take(i as int));
            assert(out@ =~= before + char_debug(c));
        }
        i = i + 1;
    }
    assert(s@.take(n as int) =~= s@);
}

/// Appends the `Debug` form of the string `s` to `out`.
fn push_str_debug(out: &mut String, s: &str)
    ensures
        final(out)@ == old(out)@ + str_debug(s@),
{
    push_char(out, '"');
    push_escaped(out, s);
    push_char(out, '"');
    assert(out@ =~= old(out)@ + str_debug(s@));
}

impl TokenWithLocation {
    /// The `Debug` form of this token.
    pub fn debug_text(&self) -> (r: String)
        ensures
            r@ == token_debug(self@),
    {
        match self.token {
            Token::Identifier => {
                let mut r = String::from_str("Identifier(");
                push_str_debug(&mut r, self.value.as_str());
                push_char(&mut r, ')');
                proof { reveal_strlit("Identifier("); reveal_strlit(")"); }
                assert(r@ =~= token_debug(self@));
                r
            },
            Token::StringLiteral => {
                let mut r = String::from_str("StringLiteral(");
                push_str_debug(&mut r, self.value.as_str());
                push_char(&mut r, ')');
                proof { reveal_strlit("StringLiteral("); reveal_strlit(")"); }
                assert(r@ =~= token_debug(self@));
                r
            },
            Token::Comment => {
                let mut r = String::from_str("Comment(");
                push_str_debug(&mut r, self.value.as_str());
                push_char(&mut r, ')');
                proof { reveal_strlit("Comment("); reveal_strlit(")"); }
                assert(r@ =~= token_debug(self@));
                r
            },
            Token::FloatLiteral => concat3("FloatLiteral(", self.value.as_str(), ")"),
            _ => self.token.debug_name(),
        }
    }
}

/// A token, the text it stands for and where it starts.
///
/// `value` is the name of an identifier, the contents of a string literal
/// (escapes resolved), the spelling of a number, the text of a comment
/// (without its delimiters), and the spelling of any other token.
#[derive(Debug, Clone, PartialEq)]
pub struct TokenWithLocation {
    pub token: Token,
    pub value: String,
    pub location: Location,
}

pub struct SpecToken {
    pub token: Token,
    pub value: Seq<char>,
    pub location: Location,
}

impl View for TokenWithLocation {
    type V = SpecToken;

    open spec fn view(&self) -> SpecToken {
        SpecToken { token: self.token, value: self.value@, location: self.location }
    }
}

/// The models of a sequence of tokens.
pub open spec fn tv(s: Seq<TokenWithLocation>) -> Seq<SpecToken> {
    s.map_values(|x: TokenWithLocation| x@)
}

} // verus!
