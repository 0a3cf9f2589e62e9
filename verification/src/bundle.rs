//! Signed bundles of X25519 prekeys.
//!
//! A bundle is signed by hashing the number of keys (8 bytes, big-endian)
//! followed by every public key with BLAKE2b-512 and signing the digest with
//! the owner's Ed25519 identity key.
use vstd::prelude::*;
use crate::bytes;
use crate::crypto;
use crate::keys::{Signature, SigningKey, VerifyingKey, X25519Public, X25519Secret};

verus! {

/// The 8 big-endian bytes of `n`.
pub open spec fn u64_be_bytes(n: u64) -> Seq<u8> {
    seq![
        (n >> 56u64) as u8,
        (n >> 48u64) as u8,
        (n >> 40u64) as u8,
        (n >> 32u64) as u8,
        (n >> 24u64) as u8,
        (n >> 16u64) as u8,
        (n >> 8u64) as u8,
        n as u8,
    ]
}

/// The public keys laid end to end.
pub open spec fn concat_keys(keys: Seq<Seq<u8>>) -> Seq<u8>
    decreases keys.len(),
{
    if keys.len() == 0 {
        Seq::empty()
    } else {
        concat_keys(keys.drop_last()) + keys.last()
    }
}

/// The views of an array of keys.
pub open spec fn key_views(keys: Seq<[u8; 32]>) -> Seq<Seq<u8>> {
    keys.map_values(|k: [u8; 32]| k@)
}

/// The message that a bundle signature covers.
pub open spec fn bundle_message(keys: Seq<Seq<u8>>) -> Seq<u8> {
    u64_be_bytes(keys.len() as u64) + concat_keys(keys)
}

/// The digest that a bundle signature signs.
pub open spec fn bundle_digest(keys: Seq<Seq<u8>>) -> Seq<u8> {
    crypto::blake2b512(bundle_message(keys))
}

/// The signature of `seed`'s owner over the bundle of public keys.
pub open spec fn bundle_signature(seed: Seq<u8>, keys: Seq<Seq<u8>>) -> Seq<u8> {
    crypto::ed25519_sign(seed, bundle_digest(keys))
}

/// Whether the signature of `seed`'s owner over the bundle has a regular
/// commitment, the condition under which strict verification accepts it.
pub open spec fn bundle_signature_regular(seed: Seq<u8>, keys: Seq<Seq<u8>>) -> bool {
    crypto::ed25519_sign_regular(seed, bundle_digest(keys))
}

/// Whether strict verification accepts `sig` as `public`'s signature over the bundle.
pub open spec fn bundle_verifies(public: Seq<u8>, keys: Seq<Seq<u8>>, sig: Seq<u8>) -> bool {
    crypto::ed25519_verify(public, bundle_digest(keys), sig)
}

fn u64_to_be_bytes(n: u64) -> (res: [u8; 8])
    ensures
        res@ == u64_be_bytes(n),
{
    let res = [
        (n >> 56u64) as u8,
        (n >> 48u64) as u8,
        (n >> 40u64) as u8,
        (n >> 32u64) as u8,
        (n >> 24u64) as u8,
        (n >> 16u64) as u8,
        (n >> 8u64) as u8,
        n as u8,
    ];
    assert(res@ =~= u64_be_bytes(n));
    res
}

/// The BLAKE2b-512 digest of the key count followed by the keys.
fn digest_keys(keys: &[X25519Public]) -> (res: Vec<u8>)
    ensures
        res@ == bundle_digest(key_views(keys@)),
{
    let n = keys.len();
    let mut message: Vec<u8> = Vec::new();
    let count = u64_to_be_bytes(n as u64);
    bytes::append_bytes(&mut message, &count);
    let mut i: usize = 0;
    while i < n
        invariant
            n == keys@.len(),
            i <= n,
            message@ == u64_be_bytes(n as u64) + concat_keys(key_views(keys@.subrange(0, i as int))),
        decreases n - i,
    {
        let ghost prev = key_views(keys@.subrange(0, i as int));
        bytes::append_bytes(&mut message, &keys[i]);
        proof {
            let next = key_views(keys@.subrange(0, i + 1));
            assert(next.drop_last() =~= prev);
            assert(next.last() == keys@[i as int]@);
        }
        i = i + 1;
    }
    assert(keys@.subrange(0, n as int) =~= keys@);
    let digest = crypto::blake2b512_digest(&message);
    digest
}

/// Signs the public halves of `key_pairs` with `signing_key`.
pub fn sign_bundle(signing_key: &SigningKey, key_pairs: &[(X25519Secret, X25519Public)]) -> (res: Signature)
    ensures
        res@ == bundle_signature(signing_key@, key_views(key_pairs@.map_values(|p: (X25519Secret, X25519Public)| p.1))),
{
    let n = key_pairs.len();
    let mut publics: Vec<X25519Public> = Vec::new();
    let mut i: usize = 0;
    while i < n
        invariant
            n == key_pairs@.len(),
            i <= n,
            publics@ == key_pairs@.subrange(0, i as int).map_values(|p: (X25519Secret, X25519Public)| p.1),
        decreases n - i,
    {
        publics.push(key_pairs[i].1);
        i = i + 1;
        assert(publics@ =~= key_pairs@.subrange(0, i as int).map_values(|p: (X25519Secret, X25519Public)| p.1));
    }
    assert(key_pairs@.subrange(0, n as int) =~= key_pairs@);
    let digest = digest_keys(&publics);
    signing_key.sign(&digest)
}

/// The signature that `verify_bundle` found invalid.
#[derive(Debug, PartialEq, Eq, Structural, Clone, Copy)]
pub struct SignatureError;

/// Checks `signature` over the bundle of `public_keys` with strict Ed25519
/// verification. A signature that `sign_bundle` made over the same keys with
/// the signing key of `verifying_key` is accepted when its commitment is
/// regular (see `crypto::ed25519_sign_regular`).
pub fn verify_bundle(verifying_key: &VerifyingKey, public_keys: &[X25519Public], signature: &Signature) -> (res: Result<(), SignatureError>)
    ensures
        res is Ok <==> bundle_verifies(verifying_key@, key_views(public_keys@), signature@),
        forall|seed: Seq<u8>|
            #![trigger crypto::ed25519_public(seed), bundle_signature(seed, key_views(public_keys@))]
            verifying_key@ == crypto::ed25519_public(seed) && signature@ == bundle_signature(seed, key_views(public_keys@))
                && bundle_signature_regular(seed, key_views(public_keys@)) ==> res is Ok,
{
    let digest = digest_keys(public_keys);
    if verifying_key.verify_strict(&digest, signature) {
        Ok(())
    } else {
        Err(SignatureError)
    }
}

/// A set of freshly generated X25519 key pairs and the owner's signature over
/// their public halves.
pub struct X3DHPreKeyBundle {
    pub bundle: Vec<(X25519Secret, X25519Public)>,
    pub signature: Signature,
}

/// The public halves of the pairs of a bundle.
pub open spec fn bundle_publics(pairs: Seq<(X25519Secret, X25519Public)>) -> Seq<Seq<u8>> {
    key_views(pairs.map_values(|p: (X25519Secret, X25519Public)| p.1))
}

/// Generates `num_keys` random X25519 key pairs and signs their public halves.
pub fn create_prekey_bundle(signing_key: &SigningKey, num_keys: u32) -> (res: X3DHPreKeyBundle)
    ensures
        res.bundle@.len() == num_keys,
        forall|i: int| 0 <= i < num_keys ==> #[trigger] res.bundle@[i].1@ == crypto::x25519_public(res.bundle@[i].0@),
        res.signature@ == bundle_signature(signing_key@, bundle_publics(res.bundle@)),
{
    let mut bundle: Vec<(X25519Secret, X25519Public)> = Vec::new();
    let mut i: u32 = 0;
    while i < num_keys
        invariant
            i <= num_keys,
            bundle@.len() == i,
            forall|j: int| 0 <= j < i ==> #[trigger] bundle@[j].1@ == crypto::x25519_public(bundle@[j].0@),
        decreases num_keys - i,
    {
        let secret = crypto::x25519_random_secret();
        let public = crypto::x25519_public_key(&secret);
        bundle.push((secret, public));
        i = i + 1;
    }
    let signature = sign_bundle(signing_key, &bundle);
    X3DHPreKeyBundle { bundle, signature }
}

} // verus!
