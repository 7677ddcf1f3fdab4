//! The failures that parsing can end in.

use crate::number::{decimal, push_padded, IntError};
use vstd::prelude::*;
use vstd::string::StringExecFns;

verus! {

/// `std::io::Error`, the error of reading and writing, carried through
/// unread.
#[verifier::external_type_specification]
#[verifier::external_body]
pub struct ExIoError(std::io::Error);

/// The error returned by whatever parses strings or files.
#[derive(Debug)]
pub enum ParsingError {
    /// A run of characters that should be a number is none, or is too large
    /// for the field it belongs to.
    ParseIntError(IntError),
    /// Reading or writing failed; never produced by parsing text.
    IOError(std::io::Error),
    /// A timestamp lacks one of its four fields.
    MalformedTimestamp,
    /// A subtitle lacks its time line, the arrow between its two timestamps,
    /// or its text. Holds the subtitle's number; the message calls a number
    /// of 0 unknown.
    BadSubtitleStructure(usize),
    /// The encoding label names no known encoding.
    BadEncodingName,
}

/// What the operating system says about an I/O error.
///
/// Calls the `Display` implementation of `std::io::Error` through
/// `to_string`. Nothing is claimed about the text.
#[verifier::external_body]
fn io_error_text(error: &std::io::Error) -> (text: String) {
    error.to_string()
}

impl From<IntError> for ParsingError {
    /// The failure to read a number, as a failure to parse.
    fn from(error: IntError) -> (e: ParsingError) {
        ParsingError::ParseIntError(error)
    }
}

impl vstd::std_specs::convert::FromSpecImpl<IntError> for ParsingError {
    open spec fn obeys_from_spec() -> bool {
        true
    }

    open spec fn from_spec(error: IntError) -> ParsingError {
        ParsingError::ParseIntError(error)
    }
}

impl From<std::io::Error> for ParsingError {
    /// The failure to read or write, as a failure to parse a file.
    fn from(error: std::io::Error) -> (e: ParsingError) {
        ParsingError::IOError(error)
    }
}

impl vstd::std_specs::convert::FromSpecImpl<std::io::Error> for ParsingError {
    open spec fn obeys_from_spec() -> bool {
        true
    }

    open spec fn from_spec(error: std::io::Error) -> ParsingError {
        ParsingError::IOError(error)
    }
}

impl ParsingError {
    /// The message of every error but an I/O error, whose message the
    /// operating system decides.
    pub open spec fn message(self) -> Seq<char> {
        match self {
            ParsingError::ParseIntError(IntError::Empty) => "cannot parse integer from empty string"@,
            ParsingError::ParseIntError(IntError::InvalidDigit) => "invalid digit found in string"@,
            ParsingError::ParseIntError(IntError::TooLarge) => "number too large to fit in target type"@,
            ParsingError::IOError(_) => Seq::empty(),
            ParsingError::MalformedTimestamp => "tried parsing a malformed timestamp"@,
            ParsingError::BadSubtitleStructure(num) => {
                "tried parsing an incorrectly formatted subtitle (subtitle number "@ + (if num > 0 {
                    decimal(num as nat)
                } else {
                    "unknown"@
                }) + ")"@
            },
            ParsingError::BadEncodingName => "incorrect encoding name provided; refer to https://encoding.spec.whatwg.org/#names-and-labels for available encodings"@,
        }
    }

    /// A message for people.
    pub fn to_string(&self) -> (text: String)
        ensures
            !(self is IOError) ==> text@ == self.message(),
    {
        match self {
            ParsingError::ParseIntError(IntError::Empty) => String::from_str(
                "cannot parse integer from empty string",
            ),
            ParsingError::ParseIntError(IntError::InvalidDigit) => String::from_str(
                "invalid digit found in string",
            ),
            ParsingError::ParseIntError(IntError::TooLarge) => String::from_str(
                "number too large to fit in target type",
            ),
            ParsingError::IOError(error) => io_error_text(error),
            ParsingError::MalformedTimestamp => String::from_str(
                "tried parsing a malformed timestamp",
            ),
            ParsingError::BadSubtitleStructure(num) => {
                let mut text = String::from_str(
                    "tried parsing an incorrectly formatted subtitle (subtitle number ",
                );
                if *num > 0 {
                    push_padded(&mut text, *num as u64, 0);
                } else {
                    text.append("unknown");
                }
                text.append(")");
                text
            },
            ParsingError::BadEncodingName => String::from_str(
                "incorrect encoding name provided; refer to https://encoding.spec.whatwg.org/#names-and-labels for available encodings",
            ),
        }
    }
}

} // verus!
