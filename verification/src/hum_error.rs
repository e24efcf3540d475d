//! Error types of the library.
//!
//! Parse errors are position-tagged; generation errors carry a message.
//! Neither is recovered internally: callers decide whether to abort or to
//! report and continue.
use vstd::prelude::*;

verus! {

/// A syntax error: the notation could not be parsed past `position`
/// (a character index into the input).
#[derive(Debug, Clone, Copy, PartialEq, Eq, Structural)]
pub struct ParseError {
    pub position: usize,
}

/// A semantically invalid command met while replaying a score: an unknown
/// note name, a malformed numeric literal, or a value the arithmetic cannot
/// represent.
#[derive(Debug, Clone)]
pub struct GenerateError {
    pub message: String,
}

/// Any error of the library's own pipeline: parsing or interpretation.
/// Errors of the audio and file collaborators stay outside the library.
#[derive(Debug)]
pub enum HumError {
    GenerateError(GenerateError),
    HumParseError(ParseError),
}

impl HumError {
    /// The error rendered as text, in the shape `Kind: detail`.
    pub fn to_message(&self) -> (r: String)
        ensures
            (self is GenerateError ==> r@ == "GenerateError: "@ + self->GenerateError_0.message@),
            (self is HumParseError ==> r@ == "HumParseError at character "@ + crate::chars::u64_dec(
                self->HumParseError_0.position as nat,
            )),
    {
        match self {
            HumError::GenerateError(e) => String::from_str("GenerateError: ").concat(
                e.message.as_str(),
            ),
            HumError::HumParseError(e) => {
                let mut v: Vec<char> = Vec::new();
                crate::chars::push_u64_dec(e.position as u64, &mut v);
                String::from_str("HumParseError at character ").concat(
                    crate::strings::chars_to_string(v).as_str(),
                )
            },
        }
    }
}

} // verus!
