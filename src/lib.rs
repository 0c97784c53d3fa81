//! A parser and accessor library for HL7 v2 messages.
//!
//! A message string is turned into a tree of segments, fields, repeats,
//! components and subcomponents whose leaves are slices of the input; a
//! dotted path reads any leaf, and a decoder undoes the escape sequences
//! of a value under the message's own delimiters.
pub mod escape_sequence;
pub mod fields;
pub mod laws;
pub mod message;
pub mod owned_parser;
pub mod path;
pub mod pipe_parser;
pub mod segments;
pub mod selector;
pub mod separators;
pub mod text;
pub mod typed;

pub use escape_sequence::EscapeSequence;
pub use fields::Field;
pub use message::Message;
pub use segments::Segment;
pub use separators::Separators;

use vstd::prelude::*;

verus! {

/// What can go wrong while parsing.
#[derive(Debug, PartialEq)]
pub enum Hl7ParseError {
    /// An unexpected condition, with a description.
    Generic(String),
    /// The header does not start with `MSH` or is too short to declare
    /// the delimiters.
    MshHeaderMalformed(String),
    /// A value that must be present is absent.
    MissingRequiredValue(),
}

impl Hl7ParseError {
    /// A description of this error for people to read.
    pub fn to_string(&self) -> (r: String)
        ensures
            r@ == match self {
                Hl7ParseError::Generic(m) => "Unexpected error: "@ + m@,
                Hl7ParseError::MshHeaderMalformed(m) =>
                    "Failure parsing MSH1/MSH2 while discovering separator chars: "@ + m@,
                Hl7ParseError::MissingRequiredValue() => "Required value missing"@,
            },
    {
        match self {
            Hl7ParseError::Generic(m) => {
                let mut s = "Unexpected error: ".to_owned();
                s.append(m.as_str());
                s
            },
            Hl7ParseError::MshHeaderMalformed(m) => {
                let mut s = "Failure parsing MSH1/MSH2 while discovering separator chars: ".to_owned();
                s.append(m.as_str());
                s
            },
            Hl7ParseError::MissingRequiredValue() => "Required value missing".to_owned(),
        }
    }
}

} // verus!
