//! Errors of the encodings that the committee exchanges.

use vstd::prelude::*;

use crate::text::{decimal_digits, with_number, with_numbers, with_text};

verus! {

/// Why an encoding was refused.
#[derive(Clone, Debug, PartialEq, Eq)]
pub enum SerializationError {
    /// There was no room for the extra information bits.
    NotEnoughSpace,
    /// The data is not a valid encoding.
    InvalidData,
    /// The flags are not those of the expected form.
    UnexpectedFlags,
    /// Reading failed; the text describes the failure.
    IoError(String),
}

/// An input that could not be read.
#[derive(Debug)]
pub enum Error {
    /// The input has the second number of bytes in place of the first.
    InvalidByteLength(usize, usize),
    /// The bytes are not the encoding of a value.
    SerializationError(SerializationError),
    /// A seed does not have the expected number of bytes.
    InvalidSeedLength(usize),
    /// The encryption key is the identity.
    IdentityEncryptionKey,
}

impl SerializationError {
    /// The text that describes the error.
    pub open spec fn text(self) -> Seq<char> {
        match self {
            SerializationError::NotEnoughSpace =>
                "the last byte does not have enough space to encode the extra info bits"@,
            SerializationError::InvalidData => "the input buffer contained invalid data"@,
            SerializationError::UnexpectedFlags => "the call expects empty flags"@,
            SerializationError::IoError(text) => "I/O error: "@ + text@,
        }
    }

    /// The text that describes the error.
    pub fn message(&self) -> (r: String)
        ensures
            r@ == self.text(),
    {
        match self {
            SerializationError::NotEnoughSpace =>
                "the last byte does not have enough space to encode the extra info bits".to_owned(),
            SerializationError::InvalidData =>
                "the input buffer contained invalid data".to_owned(),
            SerializationError::UnexpectedFlags => "the call expects empty flags".to_owned(),
            SerializationError::IoError(text) => with_text("I/O error: ", text.as_str()),
        }
    }
}

impl Error {
    /// The text that describes the error.
    pub open spec fn text(self) -> Seq<char> {
        match self {
            Error::InvalidByteLength(expected, actual) => "Invalid byte length: expected "@
                + decimal_digits(expected as nat) + ", actual "@ + decimal_digits(actual as nat),
            Error::SerializationError(e) => "Serialization error: "@ + e.text(),
            Error::InvalidSeedLength(len) => "Invalid seed length: "@ + decimal_digits(len as nat),
            Error::IdentityEncryptionKey => "Encryption key is the identity point"@,
        }
    }

    /// The text that describes the error.
    pub fn message(&self) -> (r: String)
        ensures
            r@ == self.text(),
    {
        proof {
            reveal_strlit("");
        }
        match self {
            Error::InvalidByteLength(expected, actual) => with_numbers(
                "Invalid byte length: expected ",
                *expected as u64,
                ", actual ",
                *actual as u64,
                "",
            ),
            Error::SerializationError(e) => with_text(
                "Serialization error: ",
                e.message().as_str(),
            ),
            Error::InvalidSeedLength(len) => with_number(
                "Invalid seed length: ",
                *len as u64,
                "",
            ),
            Error::IdentityEncryptionKey => "Encryption key is the identity point".to_owned(),
        }
    }
}

} // verus!
