//! Locations in the source text and the errors of lexing and parsing.
use vstd::prelude::*;
use vstd::string::*;

use crate::text::{concat2, push_char};

verus! {

/// A place in the source text: its line and its column, both counted from 1.
/// `Location::new(0, 0)` stands for a place that is not known.
#[derive(Debug, Clone, Copy, PartialEq, Eq, Structural)]
pub struct Location {
    pub line: usize,
    pub column: usize,
}

impl Location {
    pub fn new(line: usize, column: usize) -> (r: Self)
        ensures
            r == (Location { line, column }),
    {
        Location { line, column }
    }
}

/// The location that stands for an unknown place.
pub open spec fn loc0() -> Location {
    Location { line: 0, column: 0 }
}

#[derive(Debug, Clone, PartialEq)]
pub enum ParseError {
    UnexpectedToken(String, Location),
    UnexpectedEndOfInput(Location),
    InvalidSyntax(String, Location),
    MissingIdentifier(String, Location),
    InvalidRange(i32, i32, Location),
    UnexpectedCharacter(char, Location),
    UnterminatedString(Location),
    UnterminatedComment(Location),
    InvalidNumber(String, Location),
}

pub enum SpecParseError {
    UnexpectedToken(Seq<char>, Location),
    UnexpectedEndOfInput(Location),
    InvalidSyntax(Seq<char>, Location),
    MissingIdentifier(Seq<char>, Location),
    InvalidRange(i32, i32, Location),
    UnexpectedCharacter(char, Location),
    UnterminatedString(Location),
    UnterminatedComment(Location),
    InvalidNumber(Seq<char>, Location),
}

impl View for ParseError {
    type V = SpecParseError;

    open spec fn view(&self) -> SpecParseError {
        match self {
            ParseError::UnexpectedToken(s, l) => SpecParseError::UnexpectedToken(s@, *l),
            ParseError::UnexpectedEndOfInput(l) => SpecParseError::UnexpectedEndOfInput(*l),
            ParseError::InvalidSyntax(s, l) => SpecParseError::InvalidSyntax(s@, *l),
            ParseError::MissingIdentifier(s, l) => SpecParseError::MissingIdentifier(s@, *l),
            ParseError::InvalidRange(a, b, l) => SpecParseError::InvalidRange(*a, *b, *l),
            ParseError::UnexpectedCharacter(c, l) => SpecParseError::UnexpectedCharacter(*c, *l),
            ParseError::UnterminatedString(l) => SpecParseError::UnterminatedString(*l),
            ParseError::UnterminatedComment(l) => SpecParseError::UnterminatedComment(*l),
            ParseError::InvalidNumber(s, l) => SpecParseError::InvalidNumber(s@, *l),
        }
    }
}

pub type ParseResult<T> = Result<T, ParseError>;

/// The character of a decimal digit.
pub open spec fn digit_char(d: int) -> char {
    if d == 0 {
        '0'
    } else if d == 1 {
        '1'
    } else if d == 2 {
        '2'
    } else if d == 3 {
        '3'
    } else if d == 4 {
        '4'
    } else if d == 5 {
        '5'
    } else if d == 6 {
        '6'
    } else if d == 7 {
        '7'
    } else if d == 8 {
        '8'
    } else {
        '9'
    }
}

/// The decimal spelling of a natural number.
pub open spec fn decimal(n: nat) -> Seq<char>
    decreases n,
{
    if n < 10 {
        seq![digit_char(n as int)]
    } else {
        decimal(n / 10).push(digit_char((n % 10) as int))
    }
}

/// The decimal spelling of an integer, with a minus sign when it is negative.
pub open spec fn signed_decimal(x: int) -> Seq<char> {
    if x < 0 {
        seq!['-'] + decimal((-x) as nat)
    } else {
        decimal(x as nat)
    }
}

fn digit_char_of(d: u64) -> (c: char)
    requires
        d < 10,
    ensures
        c == digit_char(d as int),
{
    if d == 0 {
        '0'
    } else if d == 1 {
        '1'
    } else if d == 2 {
        '2'
    } else if d == 3 {
        '3'
    } else if d == 4 {
        '4'
    } else if d == 5 {
        '5'
    } else if d == 6 {
        '6'
    } else if d == 7 {
        '7'
    } else if d == 8 {
        '8'
    } else {
        '9'
    }
}

/// The decimal spelling of a natural number.
pub fn decimal_string(n: u64) -> (r: String)
    ensures
        r@ == decimal(n as nat),
    decreases n,
{
    if n < 10 {
        let mut s = String::new();
        push_char(&mut s, digit_char_of(n));
        assert(s@ =~= seq![digit_char(n as int)]);
        s
    } else {
        let mut s = decimal_string(n / 10);
        push_char(&mut s, digit_char_of(n % 10));
        s
    }
}

/// The decimal spelling of an integer, with a minus sign when it is negative.
pub fn signed_decimal_string(x: i64) -> (r: String)
    ensures
        r@ == signed_decimal(x as int),
{
    if x < 0 {
        let m = decimal_string((-(x as i128)) as u64);
        let r = concat2("-", m.as_str());
        proof {
            reveal_strlit("-");
            assert(r@ =~= seq!['-'] + decimal((-x) as nat));
        }
        r
    } else {
        decimal_string(x as u64)
    }
}

/// How a location is written in messages.
pub open spec fn location_text(l: Location) -> Seq<char> {
    "line "@ + decimal(l.line as nat) + ", column "@ + decimal(l.column as nat)
}

impl Location {
    /// How the location is written in messages: `line L, column C`.
    pub fn text(&self) -> (r: String)
        ensures
            r@ == location_text(*self),
    {
        let mut r = String::from_str("line ");
        let line = decimal_string(self.line as u64);
        r.append(line.as_str());
        r.append(", column ");
        let column = decimal_string(self.column as u64);
        r.append(column.as_str());
        r
    }
}

/// The text that describes an error.
pub open spec fn error_text(e: SpecParseError) -> Seq<char> {
    match e {
        SpecParseError::UnexpectedToken(m, l) => m + " at "@ + location_text(l),
        SpecParseError::UnexpectedEndOfInput(l) => "Unexpected end of input at "@ + location_text(l),
        SpecParseError::InvalidSyntax(m, l) => m + " at "@ + location_text(l),
        SpecParseError::MissingIdentifier(m, l) => m + " at "@ + location_text(l),
        SpecParseError::InvalidRange(a, b, l) => "Invalid range "@ + signed_decimal(a as int)
            + " to "@ + signed_decimal(b as int) + " at "@ + location_text(l),
        SpecParseError::UnexpectedCharacter(c, l) => "Unexpected character '"@ + seq![c] + "' at "@
            + location_text(l),
        SpecParseError::UnterminatedString(l) => "Unterminated string literal at "@
            + location_text(l),
        SpecParseError::UnterminatedComment(l) => "Unterminated comment at "@ + location_text(l),
        SpecParseError::InvalidNumber(t, l) => "Invalid number "@ + t + " at "@ + location_text(l),
    }
}

impl ParseError {
    /// The text that describes the error and where it is.
    pub fn message(&self) -> (r: String)
        ensures
            r@ == error_text(self@),
    {
        let mut r;
        let l;
        match self {
            ParseError::UnexpectedToken(m, loc) => {
                r = String::from_str(m.as_str());
                r.append(" at ");
                l = loc;
            },
            ParseError::UnexpectedEndOfInput(loc) => {
                r = String::from_str("Unexpected end of input at ");
                l = loc;
            },
            ParseError::InvalidSyntax(m, loc) => {
                r = String::from_str(m.as_str());
                r.append(" at ");
                l = loc;
            },
            ParseError::MissingIdentifier(m, loc) => {
                r = String::from_str(m.as_str());
                r.append(" at ");
                l = loc;
            },
            ParseError::InvalidRange(a, b, loc) => {
                r = String::from_str("Invalid range ");
                let a_text = signed_decimal_string(*a as i64);
                r.append(a_text.as_str());
                r.append(" to ");
                let b_text = signed_decimal_string(*b as i64);
                r.append(b_text.as_str());
                r.append(" at ");
                l = loc;
            },
            ParseError::UnexpectedCharacter(c, loc) => {
                r = String::from_str("Unexpected character '");
                let ghost before = r@;
                push_char(&mut r, *c);
                assert(r@ =~= before + seq![*c]);
                r.append("' at ");
                l = loc;
            },
            ParseError::UnterminatedString(loc) => {
                r = String::from_str("Unterminated string literal at ");
                l = loc;
            },
            ParseError::UnterminatedComment(loc) => {
                r = String::from_str("Unterminated comment at ");
                l = loc;
            },
            ParseError::InvalidNumber(t, loc) => {
                r = String::from_str("Invalid number ");
                r.append(t.as_str());
                r.append(" at ");
                l = loc;
            },
        }
        let lt = l.text();
        r.append(lt.as_str());
        r
    }
}

} // verus!
