//! The key derivation steps of the Double Ratchet
//! (https://signal.org/docs/specifications/doubleratchet/), built on
//! BLAKE2b-512: each step hashes a constant and a key, and splits the 64-byte
//! digest into two 32-byte keys.
use vstd::prelude::*;
use crate::bytes;
use crate::crypto;
use crate::keys::{X25519Public, X25519Secret};

verus! {

/// A root key.
#[derive(Clone, Copy, Debug)]
pub struct RootKey(pub [u8; 32]);

/// A chain key.
#[derive(Clone, Copy, Debug)]
pub struct ChainKey(pub [u8; 32]);

/// A message key.
#[derive(Clone, Copy, Debug)]
pub struct MessageKey(pub [u8; 32]);

/// The bytes of `"RootKeyConstant"`.
pub open spec fn root_key_constant() -> Seq<u8> {
    seq![82u8, 111u8, 111u8, 116u8, 75u8, 101u8, 121u8, 67u8, 111u8, 110u8, 115u8, 116u8, 97u8, 110u8, 116u8]
}

/// The bytes of `"ChainKeyConstant?"`.
pub open spec fn chain_key_constant() -> Seq<u8> {
    seq![
        67u8, 104u8, 97u8, 105u8, 110u8, 75u8, 101u8, 121u8, 67u8, 111u8, 110u8, 115u8, 116u8, 97u8, 110u8, 116u8,
        63u8,
    ]
}

/// The first and second halves of a 64-byte digest.
pub open spec fn halves(digest: Seq<u8>) -> (Seq<u8>, Seq<u8>) {
    (digest.subrange(0, 32), digest.subrange(32, 64))
}

/// Splits a 64-byte digest into its two halves.
fn split_digest(digest: &[u8]) -> (res: ([u8; 32], [u8; 32]))
    requires
        digest@.len() == 64,
    ensures
        (res.0@, res.1@) == halves(digest@),
{
    (bytes::array32_at(digest, 0), bytes::array32_at(digest, 32))
}

/// The two keys that one ratchet step derives from `key`: the halves of its
/// BLAKE2b-512 digest.
pub fn ratchet(key: &[u8; 32]) -> (res: ([u8; 32], [u8; 32]))
    ensures
        (res.0@, res.1@) == halves(crypto::blake2b512(key@)),
{
    let digest = crypto::blake2b512_digest(key);
    split_digest(&digest)
}

/// A fresh Diffie-Hellman secret.
pub fn generate_dh() -> (res: X25519Secret) {
    crate::keys::generate_x25519_secret()
}

/// The Diffie-Hellman output of a secret and a peer's public key.
pub fn dh(dh_pair: &X25519Secret, dh_pub: &X25519Public) -> (res: [u8; 32])
    ensures
        res@ == crypto::x25519_dh(dh_pair@, dh_pub@),
{
    crypto::x25519_diffie_hellman(dh_pair, dh_pub)
}

impl RootKey {
    /// KDF_RK: the next root key and a chain key, the halves of the digest of
    /// the constant, the root key and the Diffie-Hellman output, in that order.
    pub fn kdf_rk(self, dh_out: &[u8; 32]) -> (res: (RootKey, ChainKey))
        ensures
            (res.0.0@, res.1.0@) == halves(crypto::blake2b512(root_key_constant() + self.0@ + dh_out@)),
    {
        let constant: [u8; 15] = [82, 111, 111, 116, 75, 101, 121, 67, 111, 110, 115, 116, 97, 110, 116];
        let mut input: Vec<u8> = Vec::new();
        bytes::append_bytes(&mut input, &constant);
        bytes::append_bytes(&mut input, &self.0);
        bytes::append_bytes(&mut input, dh_out);
        assert(constant@ =~= root_key_constant());
        let digest = crypto::blake2b512_digest(&input);
        let (l, r) = split_digest(&digest);
        (RootKey(l), ChainKey(r))
    }
}

impl ChainKey {
    /// KDF_CK: the next chain key and a message key, the halves of the digest
    /// of the constant followed by the chain key.
    pub fn kdf_ck(self) -> (res: (ChainKey, MessageKey))
        ensures
            (res.0.0@, res.1.0@) == halves(crypto::blake2b512(chain_key_constant() + self.0@)),
    {
        let constant: [u8; 17] = [67, 104, 97, 105, 110, 75, 101, 121, 67, 111, 110, 115, 116, 97, 110, 116, 63];
        let mut input: Vec<u8> = Vec::new();
        bytes::append_bytes(&mut input, &constant);
        bytes::append_bytes(&mut input, &self.0);
        assert(constant@ =~= chain_key_constant());
        let digest = crypto::blake2b512_digest(&input);
        let (l, r) = split_digest(&digest);
        (ChainKey(l), MessageKey(r))
    }
}

} // verus!
