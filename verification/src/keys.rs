//! Identity keys: Ed25519 signing keys held as their 32-byte secret seed, and
//! verifying keys held as 32 compressed bytes that always name a curve point.
use vstd::prelude::*;
use crate::crypto;

verus! {

/// An Ed25519 signature.
pub type Signature = [u8; 64];

/// An X25519 secret key.
pub type X25519Secret = [u8; 32];

/// An X25519 public key.
pub type X25519Public = [u8; 32];

/// An Ed25519 identity secret, held as its 32-byte seed.
#[derive(Clone, Copy, Debug)]
pub struct SigningKey {
    seed: [u8; 32],
}

impl View for SigningKey {
    type V = Seq<u8>;

    closed spec fn view(&self) -> Seq<u8> {
        self.seed@
    }
}

impl SigningKey {
    /// A signing key made from a 32-byte seed (every seed is a valid secret).
    pub fn from_bytes(seed: [u8; 32]) -> (res: SigningKey)
        ensures
            res@ == seed@,
    {
        SigningKey { seed }
    }

    /// A fresh random signing key.
    pub fn generate() -> (res: SigningKey)
        ensures
            res@.len() == 32,
    {
        SigningKey { seed: crypto::ed25519_generate_seed() }
    }

    /// The secret seed.
    pub fn to_bytes(&self) -> (res: [u8; 32])
        ensures
            res@ == self@,
    {
        self.seed
    }

    /// The seed of a signing key is 32 bytes long.
    pub proof fn lemma_len(&self)
        ensures
            self@.len() == 32,
    {
    }

    /// The public key of this signing key.
    pub fn verifying_key(&self) -> (res: VerifyingKey)
        ensures
            res@ == crypto::ed25519_public(self@),
    {
        let bytes = crypto::ed25519_verifying_key(&self.seed);
        VerifyingKey { bytes }
    }

    /// The Ed25519 signature of `msg`.
    pub fn sign(&self, msg: &[u8]) -> (res: Signature)
        ensures
            res@ == crypto::ed25519_sign(self@, msg@),
    {
        crypto::ed25519_sign_bytes(&self.seed, msg)
    }
}

/// An Ed25519 public key: 32 bytes that decompress to a point of the curve.
#[derive(Clone, Copy, Debug)]
pub struct VerifyingKey {
    bytes: [u8; 32],
}

impl View for VerifyingKey {
    type V = Seq<u8>;

    closed spec fn view(&self) -> Seq<u8> {
        self.bytes@
    }
}

impl VerifyingKey {
    /// A verifying key is 32 bytes long.
    pub proof fn lemma_len(&self)
        ensures
            self@.len() == 32,
    {
    }

    #[verifier::type_invariant]
    spec fn valid(self) -> bool {
        crypto::ed25519_point_valid(self.bytes@)
    }

    /// Parses 32 bytes as a verifying key: `None` unless they decompress to a point.
    pub fn from_bytes(bytes: &[u8; 32]) -> (res: Option<VerifyingKey>)
        ensures
            res is Some <==> crypto::ed25519_point_valid(bytes@),
            res matches Some(k) ==> k@ == bytes@,
    {
        if crypto::ed25519_point_is_valid(bytes) {
            Some(VerifyingKey { bytes: *bytes })
        } else {
            None
        }
    }

    /// The compressed bytes of the key.
    pub fn to_bytes(&self) -> (res: [u8; 32])
        ensures
            res@ == self@,
            crypto::ed25519_point_valid(res@),
    {
        proof {
            use_type_invariant(self);
        }
        self.bytes
    }

    /// Whether two keys are the same key.
    pub fn same_key(&self, other: &VerifyingKey) -> (res: bool)
        ensures
            res == (self@ == other@),
    {
        crate::bytes::bytes_eq(&self.bytes, &other.bytes)
    }

    /// Strict Ed25519 verification of `sig` over `msg`.
    pub fn verify_strict(&self, msg: &[u8], sig: &Signature) -> (res: bool)
        ensures
            res == crypto::ed25519_verify(self@, msg@, sig@),
            forall|seed: Seq<u8>|
                #![trigger crypto::ed25519_sign(seed, msg@), crypto::ed25519_public(seed)]
                self@ == crypto::ed25519_public(seed) && sig@ == crypto::ed25519_sign(seed, msg@)
                    && crypto::ed25519_sign_regular(seed, msg@) ==> res,
    {
        proof {
            use_type_invariant(self);
        }
        crypto::ed25519_verify_strict(&self.bytes, msg, sig)
    }

    /// The X25519 (Montgomery) form of this key.
    pub fn to_montgomery(&self) -> (res: X25519Public)
        ensures
            res@ == crypto::ed25519_to_montgomery(self@),
            forall|seed: Seq<u8>|
                #![trigger crypto::ed25519_public(seed)]
                self@ == crypto::ed25519_public(seed) ==> res@ == crypto::x25519_public(crypto::ed25519_scalar_bytes(seed)),
    {
        proof {
            use_type_invariant(self);
        }
        crypto::ed25519_to_x25519_public(&self.bytes)
    }
}

/// A fresh random X25519 secret key.
pub fn generate_x25519_secret() -> (res: X25519Secret) {
    crypto::x25519_random_secret()
}

/// The X25519 public key of a secret key.
pub fn x25519_public_key(secret: &X25519Secret) -> (res: X25519Public)
    ensures
        res@ == crypto::x25519_public(secret@),
{
    crypto::x25519_public_key(secret)
}

} // verus!
