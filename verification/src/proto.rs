//! The wire messages of the Brongnal and Gossamer services and their
//! conversion into protocol values.
//!
//! The message types mirror the services' protobuf schema: every scalar field
//! is optional, as the generated code has it.
use vstd::prelude::*;
use crate::bytes;
use crate::crypto;
use crate::keys::{VerifyingKey, X25519Public};

pub mod application;
pub mod gossamer;
pub mod service;

verus! {

/// Why bytes could not be read as a key.
#[derive(Debug, PartialEq, Eq, Structural, Clone, Copy)]
pub enum KeyError {
    InvalidEd25519Key,
    InvalidX25519Key,
}

/// The display text of a key error.
pub open spec fn key_error_text(e: KeyError) -> Seq<char> {
    match e {
        KeyError::InvalidEd25519Key => "Key was not a valid ED25519 point."@,
        KeyError::InvalidX25519Key => "Key was not a valid X25519 point."@,
    }
}

impl KeyError {
    /// The display text of this error.
    pub fn text(&self) -> (res: &'static str)
        ensures
            res@ == key_error_text(*self),
    {
        match self {
            KeyError::InvalidEd25519Key => "Key was not a valid ED25519 point.",
            KeyError::InvalidX25519Key => "Key was not a valid X25519 point.",
        }
    }
}

/// Whether `key` is an encoded Ed25519 public key: 32 bytes naming a curve point.
pub open spec fn is_verifying_key(key: Seq<u8>) -> bool {
    key.len() == 32 && crypto::ed25519_point_valid(key)
}

/// Reads an Ed25519 public key: 32 bytes that decompress to a curve point.
pub fn parse_verifying_key(key: &[u8]) -> (res: Result<VerifyingKey, KeyError>)
    ensures
        res is Ok <==> is_verifying_key(key@),
        res matches Ok(k) ==> k@ == key@,
        res matches Err(e) ==> e == KeyError::InvalidEd25519Key,
{
    if key.len() != 32 {
        return Err(KeyError::InvalidEd25519Key);
    }
    let bytes = bytes::array32_at(key, 0);
    assert(bytes@ =~= key@);
    match VerifyingKey::from_bytes(&bytes) {
        Some(k) => Ok(k),
        None => Err(KeyError::InvalidEd25519Key),
    }
}

/// Reads an X25519 public key: any 32 bytes.
pub fn parse_x25519_public_key(key: &[u8]) -> (res: Result<X25519Public, KeyError>)
    ensures
        res is Ok <==> key@.len() == 32,
        res matches Ok(k) ==> k@ == key@,
        res matches Err(e) ==> e == KeyError::InvalidX25519Key,
{
    if key.len() != 32 {
        return Err(KeyError::InvalidX25519Key);
    }
    let k = bytes::array32_at(key, 0);
    assert(k@ =~= key@);
    Ok(k)
}

/// The bytes of an optional field, empty when it is absent (the accessor that
/// generated protobuf code provides).
pub open spec fn field_bytes(field: Option<Vec<u8>>) -> Seq<u8> {
    match field {
        Some(v) => v@,
        None => Seq::empty(),
    }
}

/// Copies an optional bytes field, empty when absent.
pub fn field_or_empty(field: &Option<Vec<u8>>) -> (res: Vec<u8>)
    ensures
        res@ == field_bytes(*field),
{
    match field {
        Some(v) => bytes::to_vec(v.as_slice()),
        None => Vec::new(),
    }
}

} // verus!
