//! The message envelope: ChaCha20-Poly1305 with a random nonce, framed as
//! `VERSION_TAG || nonce || ciphertext-with-tag`.
use vstd::prelude::*;
use crate::bytes;
use crate::crypto;
use vstd::string::StringSliceAdditionalSpecFns;

verus! {

/// Length of the ChaCha20-Poly1305 nonce in bytes.
pub const NONCE_LEN: usize = 12;

/// The first byte of every envelope.
pub const VERSION_TAG: u8 = 2;

/// Why an envelope could not be made or opened.
#[derive(Debug, PartialEq, Eq, Structural, Clone, Copy)]
pub enum AeadError {
    /// Encryption failed, or decryption failed to authenticate.
    Encrypt,
    /// The envelope starts with an unknown version tag.
    Tag(u8),
    /// The envelope is too short to hold its version tag and nonce.
    Truncated,
}

/// The envelope around a sealed message.
pub open spec fn envelope(nonce: Seq<u8>, sealed: Seq<u8>) -> Seq<u8> {
    seq![VERSION_TAG] + nonce + sealed
}

/// The envelope sealing `msg` under `key` and `nonce`, authenticating `aad`.
pub open spec fn sealed_envelope(key: Seq<u8>, nonce: Seq<u8>, msg: Seq<u8>, aad: Seq<u8>) -> Seq<u8> {
    envelope(nonce, crypto::chacha20poly1305_seal(key, nonce, msg, aad))
}

/// The nonce of an envelope.
pub open spec fn envelope_nonce(ct: Seq<u8>) -> Seq<u8> {
    ct.subrange(1, 1 + NONCE_LEN as int)
}

/// The sealed part of an envelope.
pub open spec fn envelope_body(ct: Seq<u8>) -> Seq<u8> {
    ct.subrange(1 + NONCE_LEN as int, ct.len() as int)
}

/// The inputs that `decrypt_data` can read without running off the end:
/// a tag byte, and when the tag is known, a whole nonce.
pub open spec fn envelope_readable(ct: Seq<u8>) -> bool {
    ct.len() >= 1 && (ct[0] == VERSION_TAG ==> ct.len() >= 1 + NONCE_LEN)
}

/// Encrypts `msg` under `key` with the given nonce and frames the result:
/// one version byte, the 12-byte nonce, and the ciphertext with its 16-byte tag.
pub fn encrypt_data_with_nonce(msg: &[u8], aad: &[u8], key: &[u8; 32], nonce: &[u8; 12]) -> (res: Result<
    Vec<u8>,
    AeadError,
>)
    ensures
        res is Ok <==> crypto::aead_msg_len_ok(msg@.len()),
        res matches Err(e) ==> e == AeadError::Encrypt,
        res matches Ok(c) ==> c@ == sealed_envelope(key@, nonce@, msg@, aad@) && c@.len() == msg@.len() + 29,
{
    match crypto::chacha20poly1305_encrypt(key, nonce, msg, aad) {
        Some(ciphertext) => {
            let mut out: Vec<u8> = Vec::new();
            out.push(VERSION_TAG);
            bytes::append_bytes(&mut out, nonce);
            bytes::append_bytes(&mut out, &ciphertext);
            assert(out@ =~= sealed_envelope(key@, nonce@, msg@, aad@));
            Ok(out)
        },
        None => Err(AeadError::Encrypt),
    }
}

/// Encrypts `msg` under `key` with a fresh random nonce and frames the result
/// as `encrypt_data_with_nonce` does.
pub fn encrypt_data(msg: &[u8], aad: &[u8], key: &[u8; 32]) -> (res: Result<Vec<u8>, AeadError>)
    ensures
        res is Ok <==> crypto::aead_msg_len_ok(msg@.len()),
        res matches Err(e) ==> e == AeadError::Encrypt,
        res matches Ok(c) ==> c@.len() == msg@.len() + 29,
        res matches Ok(c) ==> exists|nonce: Seq<u8>|
            nonce.len() == NONCE_LEN && c@ == #[trigger] sealed_envelope(key@, nonce, msg@, aad@),
{
    let nonce = crypto::chacha20poly1305_random_nonce();
    let res = encrypt_data_with_nonce(msg, aad, key, &nonce);
    proof {
        if res is Ok {
            assert(res->Ok_0@ == sealed_envelope(key@, nonce@, msg@, aad@));
        }
    }
    res
}

/// Opens an envelope made by `encrypt_data`.
///
/// An unknown version tag is reported as `Tag`; a ciphertext that does not
/// authenticate under `key` and `aad` as `Encrypt`. Every envelope that
/// `encrypt_data` made with the same key and associated data opens to its message.
pub fn decrypt_data(ciphertext: &[u8], aad: &[u8], key: &[u8; 32]) -> (res: Result<Vec<u8>, AeadError>)
    requires
        envelope_readable(ciphertext@),
    ensures
        ciphertext@[0] != VERSION_TAG ==> res == Err::<Vec<u8>, AeadError>(AeadError::Tag(ciphertext@[0])),
        ciphertext@[0] == VERSION_TAG ==> (res matches Err(e) ==> e == AeadError::Encrypt),
        res matches Ok(p) ==> ciphertext@ == sealed_envelope(key@, envelope_nonce(ciphertext@), p@, aad@),
        forall|nonce: Seq<u8>, m: Seq<u8>|
            nonce.len() == NONCE_LEN && crypto::aead_msg_len_ok(m.len())
                && ciphertext@ == #[trigger] sealed_envelope(key@, nonce, m, aad@)
                ==> (res matches Ok(p) && p@ == m),
{
    let tag = ciphertext[0];
    if tag != VERSION_TAG {
        return Err(AeadError::Tag(tag));
    }
    let nonce = bytes::array12_at(ciphertext, 1);
    let body = bytes::tail_from(ciphertext, NONCE_LEN + 1);
    proof {
        assert(ciphertext@ =~= envelope(nonce@, body@));
        assert forall|n: Seq<u8>, m: Seq<u8>|
            n.len() == NONCE_LEN && ciphertext@ == #[trigger] sealed_envelope(key@, n, m, aad@)
            implies n == nonce@ && body@ == crypto::chacha20poly1305_seal(key@, nonce@, m, aad@) by {
            let sealed = crypto::chacha20poly1305_seal(key@, n, m, aad@);
            assert(envelope(n, sealed).subrange(1, 13) =~= n);
            assert(envelope(n, sealed).subrange(13, envelope(n, sealed).len() as int) =~= sealed);
        }
    }
    match crypto::chacha20poly1305_decrypt(key, &nonce, &body, aad) {
        Some(plaintext) => {
            assert(ciphertext@ =~= sealed_envelope(key@, envelope_nonce(ciphertext@), plaintext@, aad@));
            Ok(plaintext)
        },
        None => Err(AeadError::Encrypt),
    }
}

/// Opens any byte string as an envelope: one too short to hold its version tag
/// and, for a known tag, its nonce is refused as `Truncated`; any other is
/// opened as `decrypt_data` opens it.
pub fn decrypt_data_checked(ciphertext: &[u8], aad: &[u8], key: &[u8; 32]) -> (res: Result<Vec<u8>, AeadError>)
    ensures
        !envelope_readable(ciphertext@) <==> res == Err::<Vec<u8>, AeadError>(AeadError::Truncated),
        envelope_readable(ciphertext@) && ciphertext@[0] != VERSION_TAG ==> res == Err::<Vec<u8>, AeadError>(
            AeadError::Tag(ciphertext@[0]),
        ),
        envelope_readable(ciphertext@) && ciphertext@[0] == VERSION_TAG ==> (res matches Err(e) ==> e
            == AeadError::Encrypt),
        res matches Ok(p) ==> ciphertext@ == sealed_envelope(key@, envelope_nonce(ciphertext@), p@, aad@),
        forall|nonce: Seq<u8>, m: Seq<u8>|
            nonce.len() == NONCE_LEN && crypto::aead_msg_len_ok(m.len())
                && ciphertext@ == #[trigger] sealed_envelope(key@, nonce, m, aad@)
                ==> (res matches Ok(p) && p@ == m),
{
    if !is_readable(ciphertext) {
        proof {
            assert forall|nonce: Seq<u8>, m: Seq<u8>|
                nonce.len() == NONCE_LEN && #[trigger] sealed_envelope(key@, nonce, m, aad@) == ciphertext@ implies false by {
                assert(sealed_envelope(key@, nonce, m, aad@)[0] == VERSION_TAG);
            }
        }
        return Err(AeadError::Truncated);
    }
    decrypt_data(ciphertext, aad, key)
}

/// Whether `ciphertext` can be read as an envelope.
pub fn is_readable(ciphertext: &[u8]) -> (res: bool)
    ensures
        res == envelope_readable(ciphertext@),
{
    ciphertext.len() >= 1 && (ciphertext[0] != VERSION_TAG || ciphertext.len() >= 1 + NONCE_LEN)
}

/// The associated data of a Brongnal envelope: both identity keys followed by
/// both identities, sender first.
pub open spec fn brongnal_aad(sender_ik: Seq<u8>, receiver_ik: Seq<u8>, sender: Seq<u8>, receiver: Seq<u8>) -> Seq<u8> {
    sender_ik + receiver_ik + sender + receiver
}

fn make_brongnal_aad(sender_ik: &[u8; 32], receiver_ik: &[u8; 32], sender: &str, receiver: &str) -> (res: Vec<u8>)
    ensures
        res@ == brongnal_aad(sender_ik@, receiver_ik@, sender.spec_bytes(), receiver.spec_bytes()),
{
    let mut aad: Vec<u8> = Vec::new();
    bytes::append_bytes(&mut aad, sender_ik);
    bytes::append_bytes(&mut aad, receiver_ik);
    bytes::append_bytes(&mut aad, sender.as_bytes());
    bytes::append_bytes(&mut aad, receiver.as_bytes());
    assert(aad@ =~= brongnal_aad(sender_ik@, receiver_ik@, sender.spec_bytes(), receiver.spec_bytes()));
    aad
}

/// Encrypts a message using the AEAD scheme suitable in this application.
/// The AAD consists of sender_ik + receiver_ik + sender_identity + receiver_identity.
pub fn encrypt_brongnal(
    sk: &[u8; 32],
    message: &[u8],
    sender_ik: &[u8; 32],
    receiver_ik: &[u8; 32],
    sender: &str,
    receiver: &str,
) -> (res: Result<Vec<u8>, AeadError>)
    ensures
        res is Ok <==> crypto::aead_msg_len_ok(message@.len()),
        res matches Err(e) ==> e == AeadError::Encrypt,
        res matches Ok(c) ==> c@.len() == message@.len() + 29,
        res matches Ok(c) ==> exists|nonce: Seq<u8>|
            nonce.len() == NONCE_LEN && c@ == #[trigger] sealed_envelope(
                sk@,
                nonce,
                message@,
                brongnal_aad(sender_ik@, receiver_ik@, sender.spec_bytes(), receiver.spec_bytes()),
            ),
{
    let aad = make_brongnal_aad(sender_ik, receiver_ik, sender, receiver);
    encrypt_data(message, &aad, sk)
}

/// Decrypts a message using the AEAD scheme suitable in this application.
/// The AAD consists of sender_ik + receiver_ik + sender_identity + receiver_identity.
///
/// A message that `encrypt_brongnal` encrypted under the same key, identity keys
/// and identities decrypts to itself.
pub fn decrypt_brongnal(
    sk: &[u8; 32],
    ciphertext: &[u8],
    sender_ik: &[u8; 32],
    receiver_ik: &[u8; 32],
    sender: &str,
    receiver: &str,
) -> (res: Result<Vec<u8>, AeadError>)
    requires
        envelope_readable(ciphertext@),
    ensures
        ciphertext@[0] != VERSION_TAG ==> res == Err::<Vec<u8>, AeadError>(AeadError::Tag(ciphertext@[0])),
        ciphertext@[0] == VERSION_TAG ==> (res matches Err(e) ==> e == AeadError::Encrypt),
        res matches Ok(p) ==> ciphertext@ == sealed_envelope(
            sk@,
            envelope_nonce(ciphertext@),
            p@,
            brongnal_aad(sender_ik@, receiver_ik@, sender.spec_bytes(), receiver.spec_bytes()),
        ),
        forall|nonce: Seq<u8>, m: Seq<u8>|
            nonce.len() == NONCE_LEN && crypto::aead_msg_len_ok(m.len()) && ciphertext@
                == #[trigger] sealed_envelope(
                sk@,
                nonce,
                m,
                brongnal_aad(sender_ik@, receiver_ik@, sender.spec_bytes(), receiver.spec_bytes()),
            ) ==> (res matches Ok(p) && p@ == m),
{
    let aad = make_brongnal_aad(sender_ik, receiver_ik, sender, receiver);
    decrypt_data(ciphertext, &aad, sk)
}

} // verus!
