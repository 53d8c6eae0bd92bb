//! Protobuf to Zod schema converter.
//!
//! A parser for Protobuf files, the syntax tree it builds, and a generator
//! of Zod schemas from that tree.
pub mod generator;
pub mod parser;
pub mod text;

use vstd::prelude::*;

verus! {

#[verifier::external_type_specification]
#[verifier::external_body]
pub struct ExIoError(std::io::Error);

/// Errors that can occur during the conversion process.
#[derive(Debug)]
pub enum ConversionError {
    FileReadError(std::io::Error),
    ParseError(String),
    GenerationError(String),
}

impl ConversionError {
    /// The text that describes the error. For a file read error it is the
    /// prefix followed by the text that the I/O error displays.
    pub fn message(&self) -> (r: String)
        ensures
            match self {
                ConversionError::FileReadError(e) => exists|t: String|
                    vstd::string::to_string_from_display_ensures::<std::io::Error>(e, t) && r@
                        == "File read error: "@ + t@,
                ConversionError::ParseError(m) => r@ == "Parse error: "@ + m@,
                ConversionError::GenerationError(m) => r@ == "Generation error: "@ + m@,
            },
    {
        match self {
            ConversionError::FileReadError(err) => {
                let text = err.to_string();
                let r = text::concat2("File read error: ", text.as_str());
                assert(r@ == "File read error: "@ + text@);
                r
            },
            ConversionError::ParseError(m) => text::concat2("Parse error: ", m.as_str()),
            ConversionError::GenerationError(m) => text::concat2("Generation error: ", m.as_str()),
        }
    }
}

impl vstd::std_specs::convert::FromSpecImpl<std::io::Error> for ConversionError {
    open spec fn obeys_from_spec() -> bool {
        true
    }

    open spec fn from_spec(err: std::io::Error) -> Self {
        ConversionError::FileReadError(err)
    }
}

impl From<std::io::Error> for ConversionError {
    fn from(err: std::io::Error) -> (r: Self) {
        ConversionError::FileReadError(err)
    }
}

} // verus!
