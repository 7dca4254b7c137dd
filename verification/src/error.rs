//! The failures that opening, decoding or importing a note can report.

use vstd::prelude::*;

verus! {

/// Why a note could not be opened, decoded or imported.
#[derive(Debug, PartialEq, Eq)]
pub enum Error {
    /// The file could not be read; the text says why.
    FailedToOpenFile(String),
    /// A field that should be base64 text is not.
    Base64DecodeFail,
    /// The ciphertext has a bad length or bad padding.
    DecryptionFail,
    /// The authentication tag does not match the ciphertext: the password is
    /// wrong or the record was altered.
    MacFail,
    /// Bytes that should be text are not valid UTF-8.
    InvalidUTF8,
    /// The text segment of a payload does not follow the passage grammar.
    InvalidPlaintextFormat,
    /// The image section of a payload announces more bytes than it holds.
    InvalidImageFormat,
    /// An import file is not the expected JSON document; the text says why.
    FailedToParseJson(String),
}

impl Clone for Error {
    fn clone(&self) -> (copy: Self)
        ensures
            copy == *self,
    {
        match self {
            Error::FailedToOpenFile(why) => Error::FailedToOpenFile(why.clone()),
            Error::Base64DecodeFail => Error::Base64DecodeFail,
            Error::DecryptionFail => Error::DecryptionFail,
            Error::MacFail => Error::MacFail,
            Error::InvalidUTF8 => Error::InvalidUTF8,
            Error::InvalidPlaintextFormat => Error::InvalidPlaintextFormat,
            Error::InvalidImageFormat => Error::InvalidImageFormat,
            Error::FailedToParseJson(why) => Error::FailedToParseJson(why.clone()),
        }
    }
}

} // verus!
