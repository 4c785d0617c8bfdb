use vstd::prelude::*;

verus! {

/// The ways a parse can fail. The first error found anywhere aborts the whole
/// parse and is returned to the caller as the sole result.
#[derive(Debug)]
pub enum JsonError {
    /// A token (or raw character) that is invalid at the current position;
    /// the payload names the offending token or the violated expectation.
    UnexpectedToken(String),
    /// The input ended while a token or structural element was still expected.
    UnexpectedEof,
    /// A digit run in a numeric literal was empty.
    InvalidNumber(String),
    /// A backslash was followed by a character outside the recognized escape set.
    InvalidEscapeSequence(String),
    /// A `\u` escape whose four hex digits were incomplete, non-hexadecimal,
    /// or named a code point that is not a Unicode scalar value.
    InvalidUnicodeSequence(String),
}

/// Mathematical model of [`JsonError`]: the same variants with their text
/// payloads as character sequences.
pub enum ErrorModel {
    UnexpectedToken(Seq<char>),
    UnexpectedEof,
    InvalidNumber(Seq<char>),
    InvalidEscapeSequence(Seq<char>),
    InvalidUnicodeSequence(Seq<char>),
}

impl View for JsonError {
    type V = ErrorModel;

    open spec fn view(&self) -> ErrorModel {
        match self {
            JsonError::UnexpectedToken(s) => ErrorModel::UnexpectedToken(s@),
            JsonError::UnexpectedEof => ErrorModel::UnexpectedEof,
            JsonError::InvalidNumber(s) => ErrorModel::InvalidNumber(s@),
            JsonError::InvalidEscapeSequence(s) => ErrorModel::InvalidEscapeSequence(s@),
            JsonError::InvalidUnicodeSequence(s) => ErrorModel::InvalidUnicodeSequence(s@),
        }
    }
}

/// The message text of an error model, for display purposes.
pub open spec fn spec_describe_error(e: ErrorModel) -> Seq<char> {
    match e {
        ErrorModel::UnexpectedToken(s) => "Unexpected token: "@ + s,
        ErrorModel::UnexpectedEof => "Unexpected end of file"@,
        ErrorModel::InvalidNumber(s) => "Invalid number: "@ + s,
        ErrorModel::InvalidEscapeSequence(s) => "Invalid escape sequence: "@ + s,
        ErrorModel::InvalidUnicodeSequence(s) => "Invalid unicode sequence: "@ + s,
    }
}

impl JsonError {
    /// A human-readable message for this error.
    pub fn describe(&self) -> (r: String)
        ensures
            r@ == spec_describe_error(self@),
    {
        match self {
            JsonError::UnexpectedToken(s) => {
                let mut m = String::from_str("Unexpected token: ");
                m.append(s.as_str());
                m
            }
            JsonError::UnexpectedEof => String::from_str("Unexpected end of file"),
            JsonError::InvalidNumber(s) => {
                let mut m = String::from_str("Invalid number: ");
                m.append(s.as_str());
                m
            }
            JsonError::InvalidEscapeSequence(s) => {
                let mut m = String::from_str("Invalid escape sequence: ");
                m.append(s.as_str());
                m
            }
            JsonError::InvalidUnicodeSequence(s) => {
                let mut m = String::from_str("Invalid unicode sequence: ");
                m.append(s.as_str());
                m
            }
        }
    }
}

} // verus!
