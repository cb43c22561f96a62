use ferveo::common;
use ferveo::common::SerializationError;
use ferveo::indices::{keys_of, sorted_keys_of};
use ferveo::text::decimal;
use ferveo::Error;
use std::collections::HashMap;

fn text(s: &str) -> String {
    s.to_string()
}

#[test]
fn errors_have_their_texts() {
    assert_eq!(
        Error::ThresholdEncryptionError(text("tdec")).message(),
        "tdec"
    );
    assert_eq!(
        Error::DealerNotInValidatorSet(text("0x1")).message(),
        "Expected validator to be a part of the DKG validator set: 0x1"
    );
    assert_eq!(
        Error::UnknownDealer(text("0x1")).message(),
        "DKG received an unknown dealer: 0x1"
    );
    assert_eq!(
        Error::DuplicateDealer(text("0x1")).message(),
        "DKG received a PVSS transcript from a dealer that has already been dealt: 0x1"
    );
    assert_eq!(
        Error::InvalidPvssTranscript(text("0x1")).message(),
        "DKG received an invalid transcript from validator: 0x1"
    );
    assert_eq!(
        Error::InsufficientValidators(4, 3).message(),
        "Not enough validators (expected 4, got 3)"
    );
    assert_eq!(
        Error::InvalidTranscriptAggregate.message(),
        "Transcript aggregate doesn't match the received PVSS instances"
    );
    assert_eq!(
        Error::InvalidTranscriptDegree(16, 30).message(),
        "Invalid transcript degree: expected 16 coefficients (security threshold), got 30"
    );
    assert_eq!(
        Error::ValidatorPublicKeyMismatch.message(),
        "Validator public key mismatch"
    );
    assert_eq!(
        Error::BincodeError(text("bincode")).message(),
        "bincode"
    );
    assert_eq!(
        Error::ArkSerializeError(SerializationError::InvalidData).message(),
        "the input buffer contained invalid data"
    );
    assert_eq!(
        Error::InvalidByteLength(48, 47).message(),
        "Invalid byte length. Expected 48, got 47"
    );
    assert_eq!(
        Error::InvalidVariant(text("slow")).message(),
        "Invalid variant: slow"
    );
    assert_eq!(
        Error::InvalidDkgParameters(10, 11).message(),
        "Invalid DKG parameters: number of shares 10, threshold 11"
    );
    assert_eq!(
        Error::InvalidShareIndex(4294967295).message(),
        "Invalid share index: 4294967295"
    );
    assert_eq!(
        Error::InvalidShareUpdate.message(),
        "Invalid share update"
    );
    assert_eq!(
        Error::InvalidDkgParametersForPrecomputedVariant(4, 3).message(),
        "Invalid DKG parameters for precomputed variant: number of shares 4, threshold 3"
    );
    assert_eq!(
        Error::DuplicatedShareIndex(0).message(),
        "Duplicated share index: 0"
    );
    assert_eq!(
        Error::NoTranscriptsToAggregate.message(),
        "No transcripts to aggregate"
    );
    assert_eq!(
        Error::InvalidAggregateVerificationParameters(4, 5).message(),
        "Invalid aggregate verification parameters: number of validators 4, number of messages: 5"
    );
    assert_eq!(
        Error::TooManyTranscripts(4, 5).message(),
        "Too many transcripts. Expected: 4, got: 5"
    );
    assert_eq!(
        Error::DuplicateTranscript(text("0x1")).message(),
        "Received a duplicated transcript from validator: 0x1"
    );
}

#[test]
fn encoding_errors_have_their_texts() {
    assert_eq!(
        SerializationError::NotEnoughSpace.message(),
        "the last byte does not have enough space to encode the extra info bits"
    );
    assert_eq!(
        SerializationError::InvalidData.message(),
        "the input buffer contained invalid data"
    );
    assert_eq!(SerializationError::UnexpectedFlags.message(), "the call expects empty flags");
    assert_eq!(SerializationError::IoError(text("eof")).message(), "I/O error: eof");
}

#[test]
fn key_errors_have_their_texts() {
    assert_eq!(
        common::Error::InvalidByteLength(96, 95).message(),
        "Invalid byte length: expected 96, actual 95"
    );
    assert_eq!(common::Error::InvalidSeedLength(31).message(), "Invalid seed length: 31");
    assert_eq!(
        common::Error::IdentityEncryptionKey.message(),
        "Encryption key is the identity point"
    );
    assert_eq!(
        common::Error::SerializationError(SerializationError::NotEnoughSpace).message(),
        "Serialization error: the last byte does not have enough space to encode the extra info bits"
    );
}

#[test]
fn numbers_are_written_in_decimal() {
    for n in [0u64, 7, 10, 99, 100, 1234567890, u64::MAX] {
        assert_eq!(decimal(n), n.to_string());
    }
}

#[test]
fn keys_come_once_each_and_in_order() {
    let map: HashMap<u32, bool> = [9, 3, 7, 0].iter().map(|k| (*k, true)).collect();
    assert_eq!(keys_of(&map).len(), 4);
    assert_eq!(sorted_keys_of(&map), vec![0, 3, 7, 9]);
    assert_eq!(sorted_keys_of(&HashMap::<u32, bool>::new()), Vec::<u32>::new());
}
