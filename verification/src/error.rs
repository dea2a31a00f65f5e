use vstd::prelude::*;

verus! {

/// The ways a binary-format metadata buffer can fail to decode.
///
/// `InvalidUtf8` carries the underlying validation error so callers can
/// report exactly where the bad byte sequence sits.
#[derive(Debug, Eq, PartialEq)]
pub enum EmbossError {
    EmptyEmbossing,
    IncorrectLeadingMagic,
    InvalidEmbossedCString,
    InvalidUtf8(std::str::Utf8Error),
}

/// Relies on `std::str::Utf8Error` (the error type of `std::str::from_utf8`);
/// the library carries such a value opaquely inside `EmbossError::InvalidUtf8`.
#[verifier::external_type_specification]
#[verifier::external_body]
pub struct ExUtf8Error(std::str::Utf8Error);

/// The variant of an `EmbossError`, with the diagnostic payload abstracted
/// away, so that contracts can name a failure without naming a `Utf8Error`.
pub enum ErrorKind {
    EmptyEmbossing,
    IncorrectLeadingMagic,
    InvalidEmbossedCString,
    InvalidUtf8,
}

impl EmbossError {
    /// Which failure this error reports.
    pub open spec fn kind(&self) -> ErrorKind {
        match self {
            EmbossError::EmptyEmbossing => ErrorKind::EmptyEmbossing,
            EmbossError::IncorrectLeadingMagic => ErrorKind::IncorrectLeadingMagic,
            EmbossError::InvalidEmbossedCString => ErrorKind::InvalidEmbossedCString,
            EmbossError::InvalidUtf8(_) => ErrorKind::InvalidUtf8,
        }
    }

    /// A short human-readable description of the failure.
    pub fn describe(&self) -> (r: &'static str)
        ensures
            r@ == match self.kind() {
                ErrorKind::EmptyEmbossing => "Empty Embossing"@,
                ErrorKind::IncorrectLeadingMagic => "Leading bytes did not correspond to a valid Emboss magic number"@,
                ErrorKind::InvalidEmbossedCString => "No terminating null-byte was found in the embossed string"@,
                ErrorKind::InvalidUtf8 => "The embossed string was not valid UTF-8"@,
            },
    {
        match self {
            EmbossError::EmptyEmbossing => "Empty Embossing",
            EmbossError::IncorrectLeadingMagic => {
                "Leading bytes did not correspond to a valid Emboss magic number"
            },
            EmbossError::InvalidEmbossedCString => {
                "No terminating null-byte was found in the embossed string"
            },
            EmbossError::InvalidUtf8(_) => "The embossed string was not valid UTF-8",
        }
    }
}

} // verus!
