//! Why a request could not be decoded.

use vstd::prelude::*;

verus! {

/// The ways in which the bytes of a request can fail to be a request.
#[derive(Debug, PartialEq, Eq, Clone, Copy, Hash, Structural)]
pub enum DecodeError {
    /// The first line is missing, or does not consist of exactly three
    /// words.
    MalformedStatusLine,
    /// The first word of the first line names no known method.
    UnsupportedMethod,
    /// A line of the header section holds no colon.
    MalformedHeader,
}

impl DecodeError {
    /// A sentence that describes the failure.
    pub fn message(&self) -> (s: &'static str)
        ensures
            s@ == match *self {
                DecodeError::MalformedStatusLine => "Invalid status line, expected to split it into 3 parts by whitespace"@,
                DecodeError::UnsupportedMethod => "Invalid HTTP Method"@,
                DecodeError::MalformedHeader => "Invalid header format"@,
            },
    {
        match self {
            DecodeError::MalformedStatusLine => "Invalid status line, expected to split it into 3 parts by whitespace",
            DecodeError::UnsupportedMethod => "Invalid HTTP Method",
            DecodeError::MalformedHeader => "Invalid header format",
        }
    }
}

} // verus!
