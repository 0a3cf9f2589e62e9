//! The cryptographic primitives this library relies on.
//!
//! Each primitive is a small wrapper around an outside crate. What the outside
//! algorithm returns is given a name (a specification function without a body),
//! and the wrapper's contract ties its result to that name together with the few
//! algebraic facts that the crates' documentation promises. Encodings that a few
//! lines can describe (hex, base64) are stated in full.
use vstd::prelude::*;
use base64::Engine;
use blake2::Digest;
use chacha20poly1305::aead::{Aead, AeadCore, KeyInit};
use ed25519_dalek::Signer;

verus! {

// ---------------------------------------------------------------------------
// Names for what the outside algorithms compute.
// ---------------------------------------------------------------------------

/// The 64-byte BLAKE2b-512 digest of `data`.
pub uninterp spec fn blake2b512(data: Seq<u8>) -> Seq<u8>;

/// The 32-byte SHA-256 digest of `data`.
pub uninterp spec fn sha256(data: Seq<u8>) -> Seq<u8>;

/// The first 32 bytes of HKDF-SHA256 output keying material for the given
/// salt, input keying material and info string.
pub uninterp spec fn hkdf_sha256_okm32(salt: Seq<u8>, ikm: Seq<u8>, info: Seq<u8>) -> Seq<u8>;

/// The compressed Ed25519 public key belonging to the 32-byte secret `seed`.
pub uninterp spec fn ed25519_public(seed: Seq<u8>) -> Seq<u8>;

/// The 64-byte Ed25519 signature of `msg` under the secret `seed`.
pub uninterp spec fn ed25519_sign(seed: Seq<u8>, msg: Seq<u8>) -> Seq<u8>;

/// Whether strict Ed25519 verification accepts `sig` over `msg` for `public`.
pub uninterp spec fn ed25519_verify(public: Seq<u8>, msg: Seq<u8>, sig: Seq<u8>) -> bool;

/// Whether the 32 bytes decompress to a point of the Edwards curve.
pub uninterp spec fn ed25519_point_valid(bytes: Seq<u8>) -> bool;

/// The unclamped scalar bytes that an Ed25519 secret expands to (the first half
/// of SHA-512 of the seed).
pub uninterp spec fn ed25519_scalar_bytes(seed: Seq<u8>) -> Seq<u8>;

/// The Montgomery (X25519) form of an Ed25519 public key.
pub uninterp spec fn ed25519_to_montgomery(public: Seq<u8>) -> Seq<u8>;

/// The X25519 public key of the 32-byte secret.
pub uninterp spec fn x25519_public(secret: Seq<u8>) -> Seq<u8>;

/// The X25519 shared secret of `secret` with the peer's `public` key.
pub uninterp spec fn x25519_dh(secret: Seq<u8>, public: Seq<u8>) -> Seq<u8>;

/// The ChaCha20-Poly1305 ciphertext (encrypted message followed by the 16-byte
/// tag) of `msg` under `key` and `nonce`, authenticating `aad`.
pub uninterp spec fn chacha20poly1305_seal(key: Seq<u8>, nonce: Seq<u8>, msg: Seq<u8>, aad: Seq<u8>) -> Seq<u8>;

/// The text that `chrono` writes for the UTC time `secs` seconds after the
/// Unix epoch (`YYYY-MM-DD HH:MM:SS UTC`), or `None` when that time is out of
/// `chrono`'s range.
pub uninterp spec fn utc_timestamp_text(secs: int) -> Option<Seq<char>>;

/// What `jsonwebtoken::decode_header` reads from a JWT: the `kid` of its
/// header (which may be absent), or the text of the error it reports.
pub uninterp spec fn jwt_header_kid(token: Seq<char>) -> Result<Option<Seq<char>>, Seq<char>>;

/// The outcome of checking the JWT `token` against the key named `kid` in the
/// JSON Web Key Set `jwks`, with `jsonwebtoken`: `Ok(None)` when the set has no
/// key of that name; `Ok(Some(payload))`, the token's claims as JSON text, when
/// the RS256 signature verifies under that key, the claims carry `exp` and the
/// issuer is `issuer`; otherwise the text of the error reported.
pub uninterp spec fn jwt_rs256_payload(token: Seq<char>, jwks: Seq<char>, kid: Seq<char>, issuer: Seq<char>) -> Result<
    Option<Seq<char>>,
    Seq<char>,
>;

/// The encoding of the identity point of edwards25519 (y = 1, x = 0).
pub open spec fn ed25519_identity_encoding() -> Seq<u8> {
    seq![1u8] + Seq::new(31, |i: int| 0u8)
}

/// Whether the signature of `msg` with `seed` has a commitment `R` other than
/// the identity point, the one case in which strict verification rejects an
/// honest signature.
pub open spec fn ed25519_sign_regular(seed: Seq<u8>, msg: Seq<u8>) -> bool {
    ed25519_sign(seed, msg).subrange(0, 32) != ed25519_identity_encoding()
}

/// Messages that ChaCha20-Poly1305 can encrypt: fewer than 2^32 - 1 blocks of 64 bytes.
pub open spec fn aead_msg_len_ok(len: nat) -> bool {
    len / 64 < 0xffff_ffff
}

// ---------------------------------------------------------------------------
// Encodings stated in full.
// ---------------------------------------------------------------------------

/// The lower-case hexadecimal digit of a value below 16.
pub open spec fn hex_digit(n: int) -> char {
    if n < 10 { (48 + n) as char } else { (87 + n) as char }
}

/// Lower-case hexadecimal encoding: two digits per byte, high nibble first.
pub open spec fn hex_lower(data: Seq<u8>) -> Seq<char>
    decreases data.len(),
{
    if data.len() == 0 {
        Seq::empty()
    } else {
        seq![hex_digit(data[0] as int / 16), hex_digit(data[0] as int % 16)] + hex_lower(data.drop_first())
    }
}

/// The character of the standard base64 alphabet for a value below 64.
pub open spec fn base64_char(n: int) -> char {
    if n < 26 {
        (65 + n) as char
    } else if n < 52 {
        (71 + n) as char
    } else if n < 62 {
        (n - 4) as char
    } else if n == 62 {
        '+'
    } else {
        '/'
    }
}

/// Standard base64 (RFC 4648, with `=` padding): each group of three bytes
/// becomes four characters; a final group of one or two bytes is padded.
pub open spec fn base64_standard(data: Seq<u8>) -> Seq<char>
    decreases data.len(),
{
    if data.len() == 0 {
        Seq::empty()
    } else if data.len() == 1 {
        let a = data[0] as int;
        seq![base64_char(a / 4), base64_char((a % 4) * 16), '=', '=']
    } else if data.len() == 2 {
        let a = data[0] as int;
        let b = data[1] as int;
        seq![base64_char(a / 4), base64_char((a % 4) * 16 + b / 16), base64_char((b % 16) * 4), '=']
    } else {
        let a = data[0] as int;
        let b = data[1] as int;
        let c = data[2] as int;
        seq![
            base64_char(a / 4),
            base64_char((a % 4) * 16 + b / 16),
            base64_char((b % 16) * 4 + c / 64),
            base64_char(c % 64),
        ] + base64_standard(data.subrange(3, data.len() as int))
    }
}

// ---------------------------------------------------------------------------
// Wrappers.
// ---------------------------------------------------------------------------

/// `blake2::Blake2b512::digest`: the 64-byte BLAKE2b-512 digest of `data`.
#[verifier::external_body]
pub(crate) fn blake2b512_digest(data: &[u8]) -> (res: Vec<u8>)
    ensures
        res@ == blake2b512(data@),
        res@.len() == 64,
{
    blake2::Blake2b512::digest(data).to_vec()
}

/// `sha2::Sha256::digest`: the 32-byte SHA-256 digest of `data`.
#[verifier::external_body]
pub(crate) fn sha256_digest(data: &[u8]) -> (res: [u8; 32])
    ensures
        res@ == sha256(data@),
{
    sha2::Sha256::digest(data).into()
}

/// `hkdf::Hkdf::<Sha256>::new(Some(salt), ikm).expand(info, ..)` into 32 bytes of
/// output keying material. Expansion to 32 bytes never fails (HKDF-SHA256 allows
/// up to 8160 bytes).
#[verifier::external_body]
pub(crate) fn hkdf_sha256_expand32(salt: &[u8], ikm: &[u8], info: &[u8]) -> (res: [u8; 32])
    ensures
        res@ == hkdf_sha256_okm32(salt@, ikm@, info@),
{
    let mut okm = [0u8; 32];
    hkdf::Hkdf::<sha2::Sha256>::new(Some(salt), ikm).expand(info, &mut okm).unwrap();
    okm
}

/// `ed25519_dalek::SigningKey::generate(&mut OsRng)`: a fresh random secret seed.
/// Nothing is promised of the bytes: they come from the operating system.
#[verifier::external_body]
pub(crate) fn ed25519_generate_seed() -> (res: [u8; 32]) {
    ed25519_dalek::SigningKey::generate(&mut rand_core::OsRng).to_bytes()
}

/// `SigningKey::from_bytes(seed).verifying_key()`: the public key of a seed.
/// The dalek crate derives it by multiplying the base point, so it always
/// decompresses to a curve point.
#[verifier::external_body]
pub(crate) fn ed25519_verifying_key(seed: &[u8; 32]) -> (res: [u8; 32])
    ensures
        res@ == ed25519_public(seed@),
        ed25519_point_valid(res@),
{
    ed25519_dalek::SigningKey::from_bytes(seed).verifying_key().to_bytes()
}

/// `SigningKey::from_bytes(seed).sign(msg)`: the deterministic Ed25519 signature.
#[verifier::external_body]
pub(crate) fn ed25519_sign_bytes(seed: &[u8; 32], msg: &[u8]) -> (res: [u8; 64])
    ensures
        res@ == ed25519_sign(seed@, msg@),
{
    ed25519_dalek::SigningKey::from_bytes(seed).sign(msg).to_bytes()
}

/// `VerifyingKey::from_bytes(public).is_ok()`: whether 32 bytes are a valid
/// compressed Edwards point.
#[verifier::external_body]
pub(crate) fn ed25519_point_is_valid(public: &[u8; 32]) -> (res: bool)
    ensures
        res == ed25519_point_valid(public@),
{
    ed25519_dalek::VerifyingKey::from_bytes(public).is_ok()
}

/// `VerifyingKey::verify_strict`: strict Ed25519 verification of `sig` over `msg`.
///
/// Besides naming the result, the contract states when an honest signature
/// verifies. `verify_strict` (ed25519-dalek 2.2.0, `verifying.rs`) rejects a
/// non-canonical `s`, an `R` that does not decompress, an `R` or a public key of
/// small order, and otherwise accepts exactly when `R` equals the recomputed
/// `[s]B - [k]A`. A signature that `SigningKey::sign` made with the seed of
/// `public` has a canonical `s` and satisfies that equation, and the public key
/// of a seed never has small order; its `R = [r]B` lies in the prime-order
/// group, so it has small order only when it is the identity point. The
/// contract therefore promises acceptance of such a signature exactly when its
/// `R` is not the encoding of the identity (`ed25519_sign_regular`), and
/// nothing about the other case.
#[verifier::external_body]
pub(crate) fn ed25519_verify_strict(public: &[u8; 32], msg: &[u8], sig: &[u8; 64]) -> (res: bool)
    requires
        ed25519_point_valid(public@),
    ensures
        res == ed25519_verify(public@, msg@, sig@),
        forall|seed: Seq<u8>|
            #![trigger ed25519_sign(seed, msg@), ed25519_public(seed)]
            public@ == ed25519_public(seed) && sig@ == ed25519_sign(seed, msg@) && ed25519_sign_regular(seed, msg@)
                ==> res,
{
    let key = ed25519_dalek::VerifyingKey::from_bytes(public).unwrap();
    key.verify_strict(msg, &ed25519_dalek::Signature::from_bytes(sig)).is_ok()
}

/// `SigningKey::to_scalar_bytes`: the X25519 secret that corresponds to an
/// Ed25519 seed. The dalek documentation promises that its X25519 public key is
/// `verifying_key().to_montgomery()`.
#[verifier::external_body]
pub(crate) fn ed25519_to_x25519_secret(seed: &[u8; 32]) -> (res: [u8; 32])
    ensures
        res@ == ed25519_scalar_bytes(seed@),
        x25519_public(res@) == ed25519_to_montgomery(ed25519_public(seed@)),
{
    ed25519_dalek::SigningKey::from_bytes(seed).to_scalar_bytes()
}

/// `VerifyingKey::to_montgomery`: the X25519 public key of an Ed25519 public key.
/// As `to_scalar_bytes` documents, it is the X25519 public key of the scalar
/// bytes of the seed that the Ed25519 key belongs to.
#[verifier::external_body]
pub(crate) fn ed25519_to_x25519_public(public: &[u8; 32]) -> (res: [u8; 32])
    requires
        ed25519_point_valid(public@),
    ensures
        res@ == ed25519_to_montgomery(public@),
        forall|seed: Seq<u8>|
            #![trigger ed25519_public(seed)]
            public@ == ed25519_public(seed) ==> res@ == x25519_public(ed25519_scalar_bytes(seed)),
{
    ed25519_dalek::VerifyingKey::from_bytes(public).unwrap().to_montgomery().to_bytes()
}

/// `x25519_dalek::StaticSecret::random_from_rng(OsRng)`: fresh random secret bytes.
#[verifier::external_body]
pub(crate) fn x25519_random_secret() -> (res: [u8; 32]) {
    x25519_dalek::StaticSecret::random_from_rng(rand_core::OsRng).to_bytes()
}

/// `PublicKey::from(&StaticSecret::from(secret))`: the X25519 public key.
#[verifier::external_body]
pub(crate) fn x25519_public_key(secret: &[u8; 32]) -> (res: [u8; 32])
    ensures
        res@ == x25519_public(secret@),
{
    x25519_dalek::PublicKey::from(&x25519_dalek::StaticSecret::from(*secret)).to_bytes()
}

/// `StaticSecret::diffie_hellman`: the X25519 shared secret.
///
/// The contract also states the defining property of Diffie-Hellman that the
/// crate documents: the owner of the peer's secret computes the same value
/// from this side's public key.
#[verifier::external_body]
pub(crate) fn x25519_diffie_hellman(secret: &[u8; 32], public: &[u8; 32]) -> (res: [u8; 32])
    ensures
        res@ == x25519_dh(secret@, public@),
        forall|peer: Seq<u8>|
            #![trigger x25519_public(peer)]
            public@ == x25519_public(peer) ==> res@ == x25519_dh(peer, x25519_public(secret@)),
{
    let secret = x25519_dalek::StaticSecret::from(*secret);
    secret.diffie_hellman(&x25519_dalek::PublicKey::from(*public)).to_bytes()
}

/// `ChaCha20Poly1305::generate_nonce(&mut OsRng)`: a fresh random 96-bit nonce.
#[verifier::external_body]
pub(crate) fn chacha20poly1305_random_nonce() -> (res: [u8; 12]) {
    chacha20poly1305::ChaCha20Poly1305::generate_nonce(&mut rand_core::OsRng).into()
}

/// `ChaCha20Poly1305::new(key).encrypt(nonce, Payload { msg, aad })`.
/// It fails only when the message has 2^32 - 1 blocks of 64 bytes or more; the
/// ciphertext is the message's length plus the 16-byte tag.
#[verifier::external_body]
pub(crate) fn chacha20poly1305_encrypt(key: &[u8; 32], nonce: &[u8; 12], msg: &[u8], aad: &[u8]) -> (res: Option<Vec<u8>>)
    ensures
        res is Some <==> aead_msg_len_ok(msg@.len()),
        res matches Some(c) ==> c@ == chacha20poly1305_seal(key@, nonce@, msg@, aad@),
        res matches Some(c) ==> c@.len() == msg@.len() + 16,
{
    let cipher = chacha20poly1305::ChaCha20Poly1305::new(key.into());
    let payload = chacha20poly1305::aead::Payload { msg, aad };
    match cipher.encrypt(nonce.into(), payload) {
        Ok(c) => Some(c),
        Err(_) => None,
    }
}

/// `ChaCha20Poly1305::new(key).decrypt(nonce, Payload { msg: ct, aad })`.
/// Success means the tag authenticated `ct`, which is then exactly the sealing of
/// the returned plaintext; a genuine ciphertext always opens to its message.
#[verifier::external_body]
pub(crate) fn chacha20poly1305_decrypt(key: &[u8; 32], nonce: &[u8; 12], ct: &[u8], aad: &[u8]) -> (res: Option<Vec<u8>>)
    ensures
        res matches Some(p) ==> chacha20poly1305_seal(key@, nonce@, p@, aad@) == ct@,
        forall|m: Seq<u8>|
            aead_msg_len_ok(m.len()) && #[trigger] chacha20poly1305_seal(key@, nonce@, m, aad@) == ct@
                ==> res is Some && res.unwrap()@ == m,
{
    let cipher = chacha20poly1305::ChaCha20Poly1305::new(key.into());
    let payload = chacha20poly1305::aead::Payload { msg: ct, aad };
    match cipher.decrypt(nonce.into(), payload) {
        Ok(p) => Some(p),
        Err(_) => None,
    }
}

/// `hex::encode`: lower-case hexadecimal.
#[verifier::external_body]
pub(crate) fn hex_encode(data: &[u8]) -> (res: String)
    ensures
        res@ == hex_lower(data@),
{
    hex::encode(data)
}

/// `chrono::DateTime::from_timestamp(secs, 0)` followed by its `Display`
/// text; `None` where `from_timestamp` answers `None` (a time out of range).
/// The text itself is only named, not stated.
#[verifier::external_body]
pub(crate) fn utc_timestamp_to_string(secs: i64) -> (res: Option<String>)
    ensures
        match utc_timestamp_text(secs as int) {
            Some(t) => res matches Some(s) && s@ == t,
            None => res is None,
        },
{
    match chrono::DateTime::from_timestamp(secs, 0) {
        Some(d) => Some(d.to_string()),
        None => None,
    }
}

/// `jsonwebtoken::decode_header`: the `kid` of a JWT's header, or the text of
/// the error (a token that is not three dot-separated parts, or whose header
/// is not valid base64url JSON).
#[verifier::external_body]
pub(crate) fn jwt_kid(token: &str) -> (res: Result<Option<String>, String>)
    ensures
        match jwt_header_kid(token@) {
            Ok(Some(k)) => res matches Ok(Some(r)) && r@ == k,
            Ok(None) => res matches Ok(None),
            Err(e) => res matches Err(r) && r@ == e,
        },
{
    match jsonwebtoken::decode_header(token) {
        Ok(header) => Ok(header.kid),
        Err(e) => Err(e.to_string()),
    }
}

/// `serde_json::from_str::<JwkSet>`, `JwkSet::find`, `DecodingKey::from_jwk`
/// and `jsonwebtoken::decode` with `Validation::new(Algorithm::RS256)`, the
/// issuer set to `issuer`, and neither the audience nor the expiry checked (so
/// that the outcome does not depend on the clock): `Ok(None)` when the key set
/// has no key named `kid`, the claims as JSON text when the token verifies,
/// otherwise the text of the error.
#[verifier::external_body]
pub(crate) fn jwt_decode_rs256(token: &str, jwks: &str, kid: &str, issuer: &str) -> (res: Result<Option<String>, String>)
    ensures
        match jwt_rs256_payload(token@, jwks@, kid@, issuer@) {
            Ok(Some(p)) => res matches Ok(Some(r)) && r@ == p,
            Ok(None) => res matches Ok(None),
            Err(e) => res matches Err(r) && r@ == e,
        },
{
    let set: jsonwebtoken::jwk::JwkSet = serde_json::from_str(jwks).map_err(|e| e.to_string())?;
    let jwk = match set.find(kid) {
        Some(j) => j,
        None => return Ok(None),
    };
    let key = jsonwebtoken::DecodingKey::from_jwk(jwk).map_err(|e| e.to_string())?;
    let mut validation = jsonwebtoken::Validation::new(jsonwebtoken::Algorithm::RS256);
    validation.set_issuer(&[issuer]);
    validation.validate_aud = false;
    validation.validate_exp = false;
    let data = jsonwebtoken::decode::<serde_json::Value>(token, &key, &validation).map_err(|e| e.to_string())?;
    Ok(Some(data.claims.to_string()))
}

/// `base64::engine::general_purpose::STANDARD.encode`: padded standard base64.
#[verifier::external_body]
pub(crate) fn base64_encode(data: &[u8]) -> (res: String)
    ensures
        res@ == base64_standard(data@),
{
    base64::engine::general_purpose::STANDARD.encode(data)
}

} // verus!
