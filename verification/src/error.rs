//! What can go wrong in the protocols of the committee.

use vstd::prelude::*;

use crate::common::SerializationError;
use crate::text::{decimal_digits, with_number, with_numbers, with_text};

verus! {

/// An error of the distributed key generation or of one of the share protocols. A validator is
/// named by the text of its address, an error of another layer by its own text.
#[derive(Debug)]
pub enum Error {
    /// An error of threshold encryption.
    ThresholdEncryptionError(String),
    /// DKG validator set must contain the validator with the given address
    DealerNotInValidatorSet(String),
    /// DKG received an unknown dealer. Dealer must be the part of the DKG validator set.
    UnknownDealer(String),
    /// DKG received a PVSS transcript from a dealer that has already been dealt.
    DuplicateDealer(String),
    /// DKG received an invalid transcript for which optimistic verification failed
    InvalidPvssTranscript(String),
    /// Not enough validators to perform the DKG for a given number of shares
    InsufficientValidators(u32, u32),
    /// Transcript aggregate doesn't match the received PVSS instances
    InvalidTranscriptAggregate,
    /// A transcript or aggregate commits to a polynomial of the wrong degree
    /// for the security threshold (expected `threshold` coefficients)
    InvalidTranscriptDegree(u32, u32),
    /// The validator public key doesn't match the one in the DKG
    ValidatorPublicKeyMismatch,
    /// An error of the binary format.
    BincodeError(String),
    /// An error of the encoding of points and scalars.
    ArkSerializeError(SerializationError),
    /// Invalid byte length
    InvalidByteLength(usize, usize),
    /// Invalid variant
    InvalidVariant(String),
    /// DKG parameters validation failed
    InvalidDkgParameters(u32, u32),
    /// Failed to access a share for a given share index
    InvalidShareIndex(u32),
    /// Failed to verify a share update
    InvalidShareUpdate,
    /// Failed to produce a precomputed variant decryption share
    InvalidDkgParametersForPrecomputedVariant(u32, u32),
    /// DKG may not contain duplicated share indices
    DuplicatedShareIndex(u32),
    /// Creating a transcript aggregate requires at least one transcript
    NoTranscriptsToAggregate,
    /// The number of messages may not be greater than the number of validators
    InvalidAggregateVerificationParameters(u32, u32),
    /// Too many transcripts received by the DKG
    TooManyTranscripts(u32, u32),
    /// Received a duplicated transcript from a validator
    DuplicateTranscript(String),
}

impl Error {
    /// The text that describes the error.
    pub open spec fn text(self) -> Seq<char> {
        match self {
            Error::ThresholdEncryptionError(text) => text@,
            Error::DealerNotInValidatorSet(text) =>
                "Expected validator to be a part of the DKG validator set: "@ + text@,
            Error::UnknownDealer(text) =>
                "DKG received an unknown dealer: "@ + text@,
            Error::DuplicateDealer(text) =>
                "DKG received a PVSS transcript from a dealer that has already been dealt: "@ + text@,
            Error::InvalidPvssTranscript(text) =>
                "DKG received an invalid transcript from validator: "@ + text@,
            Error::InsufficientValidators(m, n) =>
                "Not enough validators (expected "@
                + decimal_digits(m as nat) + ", got "@ + decimal_digits(n as nat) + ")"@,
            Error::InvalidTranscriptAggregate =>
                "Transcript aggregate doesn't match the received PVSS instances"@,
            Error::InvalidTranscriptDegree(m, n) =>
                "Invalid transcript degree: expected "@
                + decimal_digits(m as nat) + " coefficients (security threshold), got "@ + decimal_digits(n as nat),
            Error::ValidatorPublicKeyMismatch =>
                "Validator public key mismatch"@,
            Error::BincodeError(text) => text@,
            Error::ArkSerializeError(e) => e.text(),
            Error::InvalidByteLength(m, n) =>
                "Invalid byte length. Expected "@
                + decimal_digits(m as nat) + ", got "@ + decimal_digits(n as nat),
            Error::InvalidVariant(text) =>
                "Invalid variant: "@ + text@,
            Error::InvalidDkgParameters(m, n) =>
                "Invalid DKG parameters: number of shares "@
                + decimal_digits(m as nat) + ", threshold "@ + decimal_digits(n as nat),
            Error::InvalidShareIndex(m) => "Invalid share index: "@ + decimal_digits(m as nat),
            Error::InvalidShareUpdate =>
                "Invalid share update"@,
            Error::InvalidDkgParametersForPrecomputedVariant(m, n) =>
                "Invalid DKG parameters for precomputed variant: number of shares "@
                + decimal_digits(m as nat) + ", threshold "@ + decimal_digits(n as nat),
            Error::DuplicatedShareIndex(m) => "Duplicated share index: "@ + decimal_digits(m as nat),
            Error::NoTranscriptsToAggregate =>
                "No transcripts to aggregate"@,
            Error::InvalidAggregateVerificationParameters(m, n) =>
                "Invalid aggregate verification parameters: number of validators "@
                + decimal_digits(m as nat) + ", number of messages: "@ + decimal_digits(n as nat),
            Error::TooManyTranscripts(m, n) =>
                "Too many transcripts. Expected: "@
                + decimal_digits(m as nat) + ", got: "@ + decimal_digits(n as nat),
            Error::DuplicateTranscript(text) =>
                "Received a duplicated transcript from validator: "@ + text@,
        }
    }

    /// The text that describes the error.
    pub fn message(&self) -> (r: String)
        ensures
            r@ == self.text(),
    {
        proof {
            reveal_strlit("");
        }
        match self {
            Error::ThresholdEncryptionError(text) => text.clone(),
            Error::DealerNotInValidatorSet(text) => with_text(
                "Expected validator to be a part of the DKG validator set: ",
                text.as_str(),
            ),
            Error::UnknownDealer(text) => with_text(
                "DKG received an unknown dealer: ",
                text.as_str(),
            ),
            Error::DuplicateDealer(text) => with_text(
                "DKG received a PVSS transcript from a dealer that has already been dealt: ",
                text.as_str(),
            ),
            Error::InvalidPvssTranscript(text) => with_text(
                "DKG received an invalid transcript from validator: ",
                text.as_str(),
            ),
            Error::InsufficientValidators(m, n) => with_numbers(
                "Not enough validators (expected ",
                *m as u64,
                ", got ",
                *n as u64,
                ")",
            ),
            Error::InvalidTranscriptAggregate =>
                "Transcript aggregate doesn't match the received PVSS instances".to_owned(),
            Error::InvalidTranscriptDegree(m, n) => with_numbers(
                "Invalid transcript degree: expected ",
                *m as u64,
                " coefficients (security threshold), got ",
                *n as u64,
                "",
            ),
            Error::ValidatorPublicKeyMismatch =>
                "Validator public key mismatch".to_owned(),
            Error::BincodeError(text) => text.clone(),
            Error::ArkSerializeError(e) => e.message(),
            Error::InvalidByteLength(m, n) => with_numbers(
                "Invalid byte length. Expected ",
                *m as u64,
                ", got ",
                *n as u64,
                "",
            ),
            Error::InvalidVariant(text) => with_text(
                "Invalid variant: ",
                text.as_str(),
            ),
            Error::InvalidDkgParameters(m, n) => with_numbers(
                "Invalid DKG parameters: number of shares ",
                *m as u64,
                ", threshold ",
                *n as u64,
                "",
            ),
            Error::InvalidShareIndex(m) => with_number("Invalid share index: ", *m as u64, ""),
            Error::InvalidShareUpdate =>
                "Invalid share update".to_owned(),
            Error::InvalidDkgParametersForPrecomputedVariant(m, n) => with_numbers(
                "Invalid DKG parameters for precomputed variant: number of shares ",
                *m as u64,
                ", threshold ",
                *n as u64,
                "",
            ),
            Error::DuplicatedShareIndex(m) => with_number("Duplicated share index: ", *m as u64, ""),
            Error::NoTranscriptsToAggregate =>
                "No transcripts to aggregate".to_owned(),
            Error::InvalidAggregateVerificationParameters(m, n) => with_numbers(
                "Invalid aggregate verification parameters: number of validators ",
                *m as u64,
                ", number of messages: ",
                *n as u64,
                "",
            ),
            Error::TooManyTranscripts(m, n) => with_numbers(
                "Too many transcripts. Expected: ",
                *m as u64,
                ", got: ",
                *n as u64,
                "",
            ),
            Error::DuplicateTranscript(text) => with_text(
                "Received a duplicated transcript from validator: ",
                text.as_str(),
            ),
        }
    }
}

} // verus!
