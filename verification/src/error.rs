use vstd::prelude::*;

verus! {

/// The class of an error, as the engine reports it.
#[derive(Clone, Copy, Debug, PartialEq, Eq, Structural)]
pub enum ErrorKind {
    InvalidEncoding,
}

/// Why a character could not be read or written in an encoding.
#[derive(Clone, Copy, Debug, PartialEq, Eq, Structural)]
pub enum Error {
    /// No bytes were given where a character was expected.
    EmptyMbc,
    /// A UTF-32 character needs four bytes and fewer were given.
    TruncatedUtf32,
    /// A UTF-16 unit needs two bytes and fewer were given.
    TruncatedUtf16,
    /// A UTF-16 high surrogate was not followed by a second unit.
    TruncatedSurrogatePair,
    /// The lead byte announces more bytes than were given.
    TruncatedCharacter,
    /// A GB18030 lead byte outside `0x81..=0xFE`.
    InvalidGb18030,
    /// A GB18030 sequence cut short.
    TruncatedGb18030,
    /// The code cannot be written in a single-byte encoding.
    CodeOutOfRange,
    /// The output buffer is too small for the encoded character.
    ShortBuffer,
    /// The code is not a Unicode scalar value.
    InvalidCodePoint,
    /// No bytes were given where a UTF-8 character was expected.
    EmptyUtf8,
}

/// The message each error carries.
pub open spec fn spec_message(e: Error) -> Seq<char> {
    match e {
        Error::EmptyMbc => "empty mbc"@,
        Error::TruncatedUtf32 => "truncated UTF-32"@,
        Error::TruncatedUtf16 => "truncated UTF-16"@,
        Error::TruncatedSurrogatePair => "truncated surrogate pair"@,
        Error::TruncatedCharacter => "truncated character"@,
        Error::InvalidGb18030 => "invalid GB18030"@,
        Error::TruncatedGb18030 => "truncated GB18030"@,
        Error::CodeOutOfRange => "code out of range"@,
        Error::ShortBuffer => "short buffer"@,
        Error::InvalidCodePoint => "invalid code point"@,
        Error::EmptyUtf8 => "empty UTF-8"@,
    }
}

impl Error {
    /// Every encoding error is of kind `InvalidEncoding`.
    pub fn kind(&self) -> (k: ErrorKind)
        ensures
            k == ErrorKind::InvalidEncoding,
    {
        ErrorKind::InvalidEncoding
    }

    /// The human-readable message for this error.
    pub fn message(&self) -> (m: &'static str)
        ensures
            m@ == spec_message(*self),
    {
        match self {
            Error::EmptyMbc => "empty mbc",
            Error::TruncatedUtf32 => "truncated UTF-32",
            Error::TruncatedUtf16 => "truncated UTF-16",
            Error::TruncatedSurrogatePair => "truncated surrogate pair",
            Error::TruncatedCharacter => "truncated character",
            Error::InvalidGb18030 => "invalid GB18030",
            Error::TruncatedGb18030 => "truncated GB18030",
            Error::CodeOutOfRange => "code out of range",
            Error::ShortBuffer => "short buffer",
            Error::InvalidCodePoint => "invalid code point",
            Error::EmptyUtf8 => "empty UTF-8",
        }
    }
}

} // verus!
