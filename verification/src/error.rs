use vstd::prelude::*;

verus! {

/// A parsing error.
///
/// Every structural mismatch carries the byte offset at which it was
/// detected; only a clean end of input is positionless, because the total
/// length of a streamed document is not known in advance.
#[derive(Debug, Clone, Copy, PartialEq, Eq, Structural)]
pub enum Error {
    /// Unexpected end of document.
    UnexpectedEof,
    /// A checked text representation is in use, but the input does not land
    /// on a valid encoding boundary here.
    BadEncoding(usize),
    /// An expected literal byte or dispatch tag was not found.
    BadToken(usize),
    /// A length, count or scalar field failed its numeric parse, including
    /// overflow.
    BadNumber(usize),
    /// A decoded array key is neither an integer nor a string.
    BadArrayKeyType(usize),
    /// A decoded object property name is not a string.
    BadObjectKeyType(usize),
}

impl Error {
    /// The offset of this error, if relevant.
    pub open spec fn spec_offset(self) -> Option<usize> {
        match self {
            Error::UnexpectedEof => None,
            Error::BadEncoding(offset) => Some(offset),
            Error::BadToken(offset) => Some(offset),
            Error::BadNumber(offset) => Some(offset),
            Error::BadArrayKeyType(offset) => Some(offset),
            Error::BadObjectKeyType(offset) => Some(offset),
        }
    }

    /// A short description of this error, without its offset.
    pub fn message(self) -> (r: &'static str) {
        match self {
            Error::UnexpectedEof => "unexpected end of document",
            Error::BadEncoding(_) => "a checked text representation is in use, but the serialized input is not valid UTF-8",
            Error::BadToken(_) => "encountered invalid token",
            Error::BadNumber(_) => "encountered malformed or out-of-range number",
            Error::BadArrayKeyType(_) => "array key must be int or string",
            Error::BadObjectKeyType(_) => "object key must be string",
        }
    }

    /// Returns the offset of this error, if relevant.
    pub fn offset(self) -> (r: Option<usize>)
        ensures
            r == self.spec_offset(),
    {
        match self {
            Error::UnexpectedEof => None,
            Error::BadEncoding(offset) => Some(offset),
            Error::BadToken(offset) => Some(offset),
            Error::BadNumber(offset) => Some(offset),
            Error::BadArrayKeyType(offset) => Some(offset),
            Error::BadObjectKeyType(offset) => Some(offset),
        }
    }
}

/// `std::io::Error`, declared so that transport failures can be carried
/// through unchanged.
#[verifier::external_type_specification]
#[verifier::external_body]
pub struct ExIoError(std::io::Error);

/// Either a parsing error or a transport error.
#[derive(Debug)]
pub enum IoError {
    /// A parsing error.
    Phpser(Error),
    /// A transport error, excluding a reported end of input.
    Io(std::io::Error),
}

/// Relies on `std::io::Error::kind`: recognizes a transport-reported end of
/// input, which the library reclassifies as `Error::UnexpectedEof`.
#[verifier::external_body]
fn io_error_is_eof(e: &std::io::Error) -> bool {
    e.kind() == std::io::ErrorKind::UnexpectedEof
}

impl IoError {
    /// Wraps a parsing error.
    pub fn from_parse(e: Error) -> (r: IoError)
        ensures
            r == IoError::Phpser(e),
    {
        IoError::Phpser(e)
    }

    /// Wraps a transport error, reclassifying a transport-reported end of
    /// input as `Error::UnexpectedEof` so that callers have one vocabulary
    /// for truncated data.
    pub fn from_io(e: std::io::Error) -> (r: IoError)
        ensures
            match r {
                IoError::Phpser(p) => p == Error::UnexpectedEof,
                IoError::Io(_) => true,
            },
    {
        if io_error_is_eof(&e) {
            IoError::Phpser(Error::UnexpectedEof)
        } else {
            IoError::Io(e)
        }
    }
}

/// Result with a parsing error or a transport error.
pub type IoResult<T = ()> = Result<T, IoError>;

} // verus!
