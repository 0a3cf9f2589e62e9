//! The X3DH key agreement (https://signal.org/docs/specifications/x3dh/).
//!
//! Alice is sending an end-to-end encrypted message to Bob.
//! * SK — the shared secret that both derive and use for symmetric encryption.
//! * EK — the ephemeral key Alice creates for one message; its public half travels
//!   with the message.
//! * IK — a long-term Ed25519 identity key.
//! * SPK — a medium-term X25519 prekey signed by the owner's IK.
//! * OPK — a one-time X25519 prekey that the server hands out at most once.
//!
//! Alice computes DH1 = DH(IKA, SPKB), DH2 = DH(EKA, IKB), DH3 = DH(EKA, SPKB)
//! and, when the bundle carries a one-time prekey, DH4 = DH(EKA, OPKB); the shared
//! secret is the KDF of their concatenation. Bob repeats the computation from
//! his side and obtains the same SK.
use vstd::prelude::*;
use crate::aead::{self, AeadError};
use crate::bundle;
use crate::bytes;
use crate::crypto;
use crate::keys::{Signature, SigningKey, VerifyingKey, X25519Public, X25519Secret};

verus! {

/// A participant's prekey and the signature over it by their identity key.
#[derive(Clone, Copy, Debug)]
pub struct SignedPreKey {
    pub pre_key: X25519Public,
    pub signature: Signature,
}

/// A signature over several prekeys at once; used for one-time prekeys.
#[derive(Clone, Debug)]
pub struct SignedPreKeys {
    pub pre_keys: Vec<X25519Public>,
    pub signature: Signature,
}

/// What the sender's half of the key agreement yields: the public ephemeral
/// key that the recipient needs, and the 32-byte shared secret.
#[derive(Clone, Copy, Debug)]
pub struct X3DHSendKeyAgreement {
    pub ek: X25519Public,
    pub sk: [u8; 32],
}

/// The initial message from Alice to Bob.
/// * `sender_ik` — the sender's identity key.
/// * `ek` — the sender's ephemeral public key.
/// * `pre_key` — the recipient's signed prekey that was used.
/// * `opk` — the recipient's one-time prekey, if one was used.
/// * `ciphertext` — the encrypted message.
#[derive(Clone, Debug)]
pub struct Message {
    pub sender_ik: VerifyingKey,
    pub ek: X25519Public,
    pub pre_key: X25519Public,
    pub opk: Option<X25519Public>,
    pub ciphertext: Vec<u8>,
}

/// What a sender fetches from the server to start a conversation.
#[derive(Clone, Copy, Debug)]
pub struct PreKeyBundle {
    pub ik: VerifyingKey,
    pub opk: Option<X25519Public>,
    pub spk: SignedPreKey,
}

/// Why a key agreement failed.
#[derive(Debug, PartialEq, Eq, Structural, Clone, Copy)]
pub enum X3DHError {
    /// The prekey's signature does not verify under the identity key.
    SignatureValidation,
    /// The envelope could not be made or opened.
    Aead(AeadError),
}

// ---------------------------------------------------------------------------
// Specification.
// ---------------------------------------------------------------------------

/// The HKDF info string `"Brongnal"`.
pub open spec fn kdf_info() -> Seq<u8> {
    seq![66u8, 114u8, 111u8, 110u8, 103u8, 110u8, 97u8, 108u8]
}

/// The bytes put in front of the key material, for domain separation with
/// XEdDSA: 32 bytes of 0xFF (the curve is X25519).
pub open spec fn kdf_prefix() -> Seq<u8> {
    Seq::new(32, |i: int| 0xFFu8)
}

/// The all-zero 32-byte salt.
pub open spec fn kdf_salt() -> Seq<u8> {
    Seq::new(32, |i: int| 0u8)
}

/// KDF(KM): 32 bytes of HKDF-SHA256 output with a zero salt, the prefix in front
/// of the key material and the application's info string.
pub open spec fn x3dh_kdf(km: Seq<u8>) -> Seq<u8> {
    crypto::hkdf_sha256_okm32(kdf_salt(), kdf_prefix() + km, kdf_info())
}

/// The views of an optional key.
pub open spec fn opt_view(k: Option<[u8; 32]>) -> Option<Seq<u8>> {
    match k {
        Some(k) => Some(k@),
        None => None,
    }
}

/// The public keys of an optional X25519 secret.
pub open spec fn opt_public(k: Option<[u8; 32]>) -> Option<Seq<u8>> {
    match k {
        Some(k) => Some(crypto::x25519_public(k@)),
        None => None,
    }
}

/// DH1 || DH2 || DH3 (|| DH4) as the sender computes them from the secret of
/// her identity key, the ephemeral secret `ek`, and the recipient's public keys.
pub open spec fn sender_key_material(
    sender_seed: Seq<u8>,
    ek: Seq<u8>,
    recipient_ik: Seq<u8>,
    spk: Seq<u8>,
    opk: Option<Seq<u8>>,
) -> Seq<u8> {
    let dh1 = crypto::x25519_dh(crypto::ed25519_scalar_bytes(sender_seed), spk);
    let dh2 = crypto::x25519_dh(ek, crypto::ed25519_to_montgomery(recipient_ik));
    let dh3 = crypto::x25519_dh(ek, spk);
    match opk {
        Some(opk) => dh1 + dh2 + dh3 + crypto::x25519_dh(ek, opk),
        None => dh1 + dh2 + dh3,
    }
}

/// The shared secret as the sender derives it.
pub open spec fn sender_secret(
    sender_seed: Seq<u8>,
    ek: Seq<u8>,
    recipient_ik: Seq<u8>,
    spk: Seq<u8>,
    opk: Option<Seq<u8>>,
) -> Seq<u8> {
    x3dh_kdf(sender_key_material(sender_seed, ek, recipient_ik, spk, opk))
}

/// DH1 || DH2 || DH3 (|| DH4) as the recipient computes them from his secrets
/// and the sender's public keys.
pub open spec fn receiver_key_material(
    sender_ik: Seq<u8>,
    ek: Seq<u8>,
    opk: Option<Seq<u8>>,
    receiver_seed: Seq<u8>,
    spk: Seq<u8>,
) -> Seq<u8> {
    let dh1 = crypto::x25519_dh(spk, crypto::ed25519_to_montgomery(sender_ik));
    let dh2 = crypto::x25519_dh(crypto::ed25519_scalar_bytes(receiver_seed), ek);
    let dh3 = crypto::x25519_dh(spk, ek);
    match opk {
        Some(opk) => dh1 + dh2 + dh3 + crypto::x25519_dh(opk, ek),
        None => dh1 + dh2 + dh3,
    }
}

/// The shared secret as the recipient derives it.
pub open spec fn receiver_secret(
    sender_ik: Seq<u8>,
    ek: Seq<u8>,
    opk: Option<Seq<u8>>,
    receiver_seed: Seq<u8>,
    spk: Seq<u8>,
) -> Seq<u8> {
    x3dh_kdf(receiver_key_material(sender_ik, ek, opk, receiver_seed, spk))
}

/// The associated data AD = Encode(IKA) || Encode(IKB).
pub open spec fn associated_data(sender_ik: Seq<u8>, receiver_ik: Seq<u8>) -> Seq<u8> {
    sender_ik + receiver_ik
}

/// Whether the signed prekey carries a valid signature by `ik`.
pub open spec fn spk_verifies(ik: Seq<u8>, spk: SignedPreKey) -> bool {
    bundle::bundle_verifies(ik, seq![spk.pre_key@], spk.signature@)
}

/// `m` and `sk` are what `initiate_send` yields when the sender with secret
/// `sender_seed` sends `message` to the owner of `bundle`: for some ephemeral
/// secret and nonce, the ephemeral public key, SK and the envelope are the ones
/// the protocol prescribes.
pub open spec fn initial_message_from(
    sk: Seq<u8>,
    m: Message,
    sender_seed: Seq<u8>,
    bundle: PreKeyBundle,
    message: Seq<u8>,
) -> bool {
    exists|ek: Seq<u8>, nonce: Seq<u8>| {
        &&& ek.len() == 32
        &&& nonce.len() == aead::NONCE_LEN
        &&& m.ek@ == #[trigger] crypto::x25519_public(ek)
        &&& sk == sender_secret(sender_seed, ek, bundle.ik@, bundle.spk.pre_key@, opt_view(bundle.opk))
        &&& m.ciphertext@ == #[trigger] aead::sealed_envelope(
            sk,
            nonce,
            message,
            associated_data(crypto::ed25519_public(sender_seed), bundle.ik@),
        )
    }
}

/// The bytes of the application's HKDF info string, `"Brongnal"`.
pub open spec fn brongnal_info() -> Seq<u8> {
    seq![0x42u8, 0x72u8, 0x6fu8, 0x6eu8, 0x67u8, 0x6eu8, 0x61u8, 0x6cu8]
}

/// The sender's shared secret, written out: HKDF-SHA256 with a zero salt over
/// 32 bytes of 0xFF, DH1 = DH(IK_A, SPK_B), DH2 = DH(EK_A, IK_B),
/// DH3 = DH(EK_A, SPK_B) and, when the bundle has a one-time prekey,
/// DH4 = DH(EK_A, OPK_B), with the info string "Brongnal".
pub proof fn lemma_sender_secret_mixes_all_dh(
    sender_seed: Seq<u8>,
    ek: Seq<u8>,
    recipient_ik: Seq<u8>,
    spk: Seq<u8>,
    opk: Option<Seq<u8>>,
)
    ensures
        sender_secret(sender_seed, ek, recipient_ik, spk, opk) == crypto::hkdf_sha256_okm32(
            Seq::new(32, |i: int| 0u8),
            Seq::new(32, |i: int| 0xFFu8) + crypto::x25519_dh(crypto::ed25519_scalar_bytes(sender_seed), spk)
                + crypto::x25519_dh(ek, crypto::ed25519_to_montgomery(recipient_ik)) + crypto::x25519_dh(ek, spk)
                + match opk {
                Some(o) => crypto::x25519_dh(ek, o),
                None => Seq::<u8>::empty(),
            },
            brongnal_info(),
        ),
{
    let dh = crypto::x25519_dh(crypto::ed25519_scalar_bytes(sender_seed), spk) + crypto::x25519_dh(
        ek,
        crypto::ed25519_to_montgomery(recipient_ik),
    ) + crypto::x25519_dh(ek, spk);
    assert(kdf_info() =~= brongnal_info());
    assert(kdf_prefix() =~= Seq::new(32, |i: int| 0xFFu8));
    assert(kdf_salt() =~= Seq::new(32, |i: int| 0u8));
    match opk {
        Some(o) => {
            assert(kdf_prefix() + sender_key_material(sender_seed, ek, recipient_ik, spk, opk) =~= Seq::new(
                32,
                |i: int| 0xFFu8,
            ) + crypto::x25519_dh(crypto::ed25519_scalar_bytes(sender_seed), spk) + crypto::x25519_dh(
                ek,
                crypto::ed25519_to_montgomery(recipient_ik),
            ) + crypto::x25519_dh(ek, spk) + crypto::x25519_dh(ek, o));
        },
        None => {
            assert(kdf_prefix() + sender_key_material(sender_seed, ek, recipient_ik, spk, opk) =~= Seq::new(
                32,
                |i: int| 0xFFu8,
            ) + crypto::x25519_dh(crypto::ed25519_scalar_bytes(sender_seed), spk) + crypto::x25519_dh(
                ek,
                crypto::ed25519_to_montgomery(recipient_ik),
            ) + crypto::x25519_dh(ek, spk) + Seq::<u8>::empty());
        },
    }
}

/// The recipient's shared secret, written out: HKDF-SHA256 with a zero salt
/// over 32 bytes of 0xFF, DH(SPK_B, IK_A), DH(IK_B, EK_A), DH(SPK_B, EK_A) and,
/// when a one-time prekey was used, DH(OPK_B, EK_A), with the info string
/// "Brongnal".
pub proof fn lemma_receiver_secret_mixes_all_dh(
    sender_ik: Seq<u8>,
    ek: Seq<u8>,
    opk: Option<Seq<u8>>,
    receiver_seed: Seq<u8>,
    spk: Seq<u8>,
)
    ensures
        receiver_secret(sender_ik, ek, opk, receiver_seed, spk) == crypto::hkdf_sha256_okm32(
            Seq::new(32, |i: int| 0u8),
            Seq::new(32, |i: int| 0xFFu8) + crypto::x25519_dh(spk, crypto::ed25519_to_montgomery(sender_ik))
                + crypto::x25519_dh(crypto::ed25519_scalar_bytes(receiver_seed), ek) + crypto::x25519_dh(spk, ek)
                + match opk {
                Some(o) => crypto::x25519_dh(o, ek),
                None => Seq::<u8>::empty(),
            },
            brongnal_info(),
        ),
{
    assert(kdf_info() =~= brongnal_info());
    assert(kdf_prefix() =~= Seq::new(32, |i: int| 0xFFu8));
    assert(kdf_salt() =~= Seq::new(32, |i: int| 0u8));
    match opk {
        Some(o) => {
            assert(kdf_prefix() + receiver_key_material(sender_ik, ek, opk, receiver_seed, spk) =~= Seq::new(
                32,
                |i: int| 0xFFu8,
            ) + crypto::x25519_dh(spk, crypto::ed25519_to_montgomery(sender_ik)) + crypto::x25519_dh(
                crypto::ed25519_scalar_bytes(receiver_seed),
                ek,
            ) + crypto::x25519_dh(spk, ek) + crypto::x25519_dh(o, ek));
        },
        None => {
            assert(kdf_prefix() + receiver_key_material(sender_ik, ek, opk, receiver_seed, spk) =~= Seq::new(
                32,
                |i: int| 0xFFu8,
            ) + crypto::x25519_dh(spk, crypto::ed25519_to_montgomery(sender_ik)) + crypto::x25519_dh(
                crypto::ed25519_scalar_bytes(receiver_seed),
                ek,
            ) + crypto::x25519_dh(spk, ek) + Seq::<u8>::empty());
        },
    }
}

// ---------------------------------------------------------------------------
// Implementation.
// ---------------------------------------------------------------------------

/// KDF(KM): HKDF-SHA256 with a zero salt over 32 bytes of 0xFF followed by
/// `km`, info `"Brongnal"`.
pub fn kdf(km: &[u8]) -> (res: [u8; 32])
    ensures
        res@ == x3dh_kdf(km@),
{
    let salt = [0u8; 32];
    let f = [0xFFu8; 32];
    let mut ikm: Vec<u8> = Vec::new();
    bytes::append_bytes(&mut ikm, &f);
    bytes::append_bytes(&mut ikm, km);
    let info = [66u8, 114u8, 111u8, 110u8, 103u8, 110u8, 97u8, 108u8];
    assert(salt@ =~= kdf_salt());
    assert(f@ =~= kdf_prefix());
    assert(info@ =~= kdf_info());
    crypto::hkdf_sha256_expand32(&salt, &ikm, &info)
}

/// Converts an Ed25519 private key to its birationally equivalent X25519 key.
pub fn to_x25519(key: &SigningKey) -> (res: X25519Secret)
    ensures
        res@ == crypto::ed25519_scalar_bytes(key@),
        crypto::x25519_public(res@) == crypto::ed25519_to_montgomery(crypto::ed25519_public(key@)),
{
    let seed = key.to_bytes();
    crypto::ed25519_to_x25519_secret(&seed)
}

/// Converts an Ed25519 public key to its birationally equivalent X25519 key.
pub fn to_x25519_pub(key: &VerifyingKey) -> (res: X25519Public)
    ensures
        res@ == crypto::ed25519_to_montgomery(key@),
        forall|seed: Seq<u8>|
            #![trigger crypto::ed25519_public(seed)]
            key@ == crypto::ed25519_public(seed) ==> res@ == crypto::x25519_public(crypto::ed25519_scalar_bytes(seed)),
{
    key.to_montgomery()
}

fn concat3(a: &[u8; 32], b: &[u8; 32], c: &[u8; 32]) -> (res: Vec<u8>)
    ensures
        res@ == a@ + b@ + c@,
{
    let mut v: Vec<u8> = Vec::new();
    bytes::append_bytes(&mut v, a);
    bytes::append_bytes(&mut v, b);
    bytes::append_bytes(&mut v, c);
    v
}

/// The sender's half of the key agreement with the ephemeral secret `ek`.
///
/// The prekey signature is checked first: without it a malicious server could
/// hand out forged prekeys and later compromise the recipient's identity key to
/// compute SK. On success the ephemeral public key is returned together with SK,
/// the KDF of the DH values computed from `ek`.
pub fn initiate_send_get_sk_with(
    recipient_ik: &VerifyingKey,
    spk: &SignedPreKey,
    opk: Option<X25519Public>,
    sender_ik: &SigningKey,
    ek: &X25519Secret,
) -> (res: Result<X3DHSendKeyAgreement, X3DHError>)
    ensures
        res is Err <==> !spk_verifies(recipient_ik@, *spk),
        res matches Err(e) ==> e == X3DHError::SignatureValidation,
        res matches Ok(a) ==> a.ek@ == crypto::x25519_public(ek@) && a.sk@ == sender_secret(
            sender_ik@,
            ek@,
            recipient_ik@,
            spk.pre_key@,
            opt_view(opk),
        ),
        res matches Ok(a) ==> a.sk@ == crypto::hkdf_sha256_okm32(
            Seq::new(32, |i: int| 0u8),
            Seq::new(32, |i: int| 0xFFu8) + crypto::x25519_dh(crypto::ed25519_scalar_bytes(sender_ik@), spk.pre_key@)
                + crypto::x25519_dh(ek@, crypto::ed25519_to_montgomery(recipient_ik@)) + crypto::x25519_dh(
                ek@,
                spk.pre_key@,
            ) + match opk {
                Some(o) => crypto::x25519_dh(ek@, o@),
                None => Seq::<u8>::empty(),
            },
            brongnal_info(),
        ),
{
    let pre_keys = [spk.pre_key];
    assert(bundle::key_views(pre_keys@) =~= seq![spk.pre_key@]);
    if bundle::verify_bundle(recipient_ik, &pre_keys, &spk.signature).is_err() {
        return Err(X3DHError::SignatureValidation);
    }
    let identity_secret = to_x25519(sender_ik);
    let recipient_montgomery = to_x25519_pub(recipient_ik);
    let dh1 = crypto::x25519_diffie_hellman(&identity_secret, &spk.pre_key);
    let dh2 = crypto::x25519_diffie_hellman(ek, &recipient_montgomery);
    let dh3 = crypto::x25519_diffie_hellman(ek, &spk.pre_key);

    let mut km = concat3(&dh1, &dh2, &dh3);
    match opk {
        Some(one_time_prekey) => {
            let dh4 = crypto::x25519_diffie_hellman(ek, &one_time_prekey);
            bytes::append_bytes(&mut km, &dh4);
        },
        None => {},
    }
    assert(km@ =~= sender_key_material(sender_ik@, ek@, recipient_ik@, spk.pre_key@, opt_view(opk)));
    let sk = kdf(&km);
    let ek_public = crypto::x25519_public_key(ek);
    proof {
        lemma_sender_secret_mixes_all_dh(sender_ik@, ek@, recipient_ik@, spk.pre_key@, opt_view(opk));
    }
    Ok(X3DHSendKeyAgreement { ek: ek_public, sk })
}

/// The sender's half of the key agreement with a fresh random ephemeral secret,
/// as `initiate_send_get_sk_with` computes it.
pub fn initiate_send_get_sk(
    recipient_ik: &VerifyingKey,
    spk: &SignedPreKey,
    opk: Option<X25519Public>,
    sender_ik: &SigningKey,
) -> (res: Result<X3DHSendKeyAgreement, X3DHError>)
    ensures
        res is Err <==> !spk_verifies(recipient_ik@, *spk),
        res matches Err(e) ==> e == X3DHError::SignatureValidation,
        res matches Ok(a) ==> exists|ek: Seq<u8>|
            ek.len() == 32 && a.ek@ == #[trigger] crypto::x25519_public(ek)
                && a.sk@ == sender_secret(sender_ik@, ek, recipient_ik@, spk.pre_key@, opt_view(opk)),
{
    let ek = crypto::x25519_random_secret();
    let res = initiate_send_get_sk_with(recipient_ik, spk, opk, sender_ik, &ek);
    proof {
        if res is Ok {
            assert(ek@.len() == 32);
            assert(res->Ok_0.ek@ == crypto::x25519_public(ek@));
        }
    }
    res
}

/// Alice's initial message to Bob with the ephemeral secret `ek` and the
/// envelope nonce `nonce`: her identity key, her ephemeral key, which of Bob's
/// prekeys she used, and the message encrypted under SK with
/// AD = Encode(IKA) || Encode(IKB) as associated data.
pub fn initiate_send_with(
    prekey_bundle: PreKeyBundle,
    sender_ik: &SigningKey,
    message: &[u8],
    ek: &X25519Secret,
    nonce: &[u8; 12],
) -> (res: Result<([u8; 32], Message), X3DHError>)
    ensures
        !spk_verifies(prekey_bundle.ik@, prekey_bundle.spk) ==> res == Err::<([u8; 32], Message), X3DHError>(X3DHError::SignatureValidation),
        spk_verifies(prekey_bundle.ik@, prekey_bundle.spk) && !crypto::aead_msg_len_ok(message@.len())
            ==> res == Err::<([u8; 32], Message), X3DHError>(X3DHError::Aead(AeadError::Encrypt)),
        res is Ok <==> spk_verifies(prekey_bundle.ik@, prekey_bundle.spk) && crypto::aead_msg_len_ok(message@.len()),
        res matches Ok((sk, m)) ==> {
            &&& m.sender_ik@ == crypto::ed25519_public(sender_ik@)
            &&& m.ek@ == crypto::x25519_public(ek@)
            &&& m.pre_key == prekey_bundle.spk.pre_key
            &&& m.opk == prekey_bundle.opk
            &&& sk@ == sender_secret(
                sender_ik@,
                ek@,
                prekey_bundle.ik@,
                prekey_bundle.spk.pre_key@,
                opt_view(prekey_bundle.opk),
            )
            &&& m.ciphertext@ == aead::sealed_envelope(
                sk@,
                nonce@,
                message@,
                associated_data(crypto::ed25519_public(sender_ik@), prekey_bundle.ik@),
            )
            &&& m.ciphertext@.len() == message@.len() + 29
        },
{
    let agreement = match initiate_send_get_sk_with(
        &prekey_bundle.ik,
        &prekey_bundle.spk,
        prekey_bundle.opk,
        sender_ik,
        ek,
    ) {
        Ok(a) => a,
        Err(e) => return Err(e),
    };
    let sender_public = sender_ik.verifying_key();
    let sender_bytes = sender_public.to_bytes();
    let recipient_bytes = prekey_bundle.ik.to_bytes();
    let mut ad: Vec<u8> = Vec::new();
    bytes::append_bytes(&mut ad, &sender_bytes);
    bytes::append_bytes(&mut ad, &recipient_bytes);
    assert(ad@ =~= associated_data(crypto::ed25519_public(sender_ik@), prekey_bundle.ik@));
    let ciphertext = match aead::encrypt_data_with_nonce(message, &ad, &agreement.sk, nonce) {
        Ok(c) => c,
        Err(e) => return Err(X3DHError::Aead(e)),
    };
    let m = Message {
        sender_ik: sender_public,
        ek: agreement.ek,
        pre_key: prekey_bundle.spk.pre_key,
        opk: prekey_bundle.opk,
        ciphertext,
    };
    Ok((agreement.sk, m))
}

/// Alice's initial message to Bob, with a fresh random ephemeral secret and
/// nonce, as `initiate_send_with` builds it.
pub fn initiate_send(
    prekey_bundle: PreKeyBundle,
    sender_ik: &SigningKey,
    message: &[u8],
) -> (res: Result<([u8; 32], Message), X3DHError>)
    ensures
        !spk_verifies(prekey_bundle.ik@, prekey_bundle.spk) ==> res == Err::<([u8; 32], Message), X3DHError>(X3DHError::SignatureValidation),
        spk_verifies(prekey_bundle.ik@, prekey_bundle.spk) && !crypto::aead_msg_len_ok(message@.len())
            ==> res == Err::<([u8; 32], Message), X3DHError>(X3DHError::Aead(AeadError::Encrypt)),
        res is Ok <==> spk_verifies(prekey_bundle.ik@, prekey_bundle.spk) && crypto::aead_msg_len_ok(message@.len()),
        res matches Ok((sk, m)) ==> {
            &&& m.sender_ik@ == crypto::ed25519_public(sender_ik@)
            &&& m.pre_key == prekey_bundle.spk.pre_key
            &&& m.opk == prekey_bundle.opk
            &&& m.ciphertext@.len() == message@.len() + 29
            &&& initial_message_from(sk@, m, sender_ik@, prekey_bundle, message@)
        },
{
    let ek = crypto::x25519_random_secret();
    let nonce = crypto::chacha20poly1305_random_nonce();
    let ghost bundle = prekey_bundle;
    let res = initiate_send_with(prekey_bundle, sender_ik, message, &ek, &nonce);
    proof {
        if res is Ok {
            let (sk, m) = res->Ok_0;
            assert(ek@.len() == 32 && nonce@.len() == aead::NONCE_LEN);
            assert(m.ek@ == crypto::x25519_public(ek@));
            assert(m.ciphertext@ == aead::sealed_envelope(
                sk@,
                nonce@,
                message@,
                associated_data(crypto::ed25519_public(sender_ik@), bundle.ik@),
            ));
        }
    }
    res
}

/// The recipient's half of the key agreement.
///
/// Whatever secrets the sender used, as long as they belong to the public keys
/// the recipient sees, the recipient derives the same SK as the sender.
pub fn initiate_recv_get_sk(
    sender_ik: &VerifyingKey,
    ek: X25519Public,
    opk: Option<X25519Secret>,
    receiver_ik: &SigningKey,
    spk: &X25519Secret,
) -> (res: [u8; 32])
    ensures
        res@ == receiver_secret(sender_ik@, ek@, opt_view(opk), receiver_ik@, spk@),
        res@ == crypto::hkdf_sha256_okm32(
            Seq::new(32, |i: int| 0u8),
            Seq::new(32, |i: int| 0xFFu8) + crypto::x25519_dh(spk@, crypto::ed25519_to_montgomery(sender_ik@))
                + crypto::x25519_dh(crypto::ed25519_scalar_bytes(receiver_ik@), ek@) + crypto::x25519_dh(spk@, ek@)
                + match opk {
                Some(o) => crypto::x25519_dh(o@, ek@),
                None => Seq::<u8>::empty(),
            },
            brongnal_info(),
        ),
        forall|sender_seed: Seq<u8>, ek_secret: Seq<u8>|
            #![trigger crypto::ed25519_public(sender_seed), crypto::x25519_public(ek_secret)]
            sender_ik@ == crypto::ed25519_public(sender_seed) && ek@ == crypto::x25519_public(ek_secret)
                ==> res@ == sender_secret(
                    sender_seed,
                    ek_secret,
                    crypto::ed25519_public(receiver_ik@),
                    crypto::x25519_public(spk@),
                    opt_public(opk),
                ),
{
    let sender_montgomery = to_x25519_pub(sender_ik);
    let identity_secret = to_x25519(receiver_ik);
    let dh1 = crypto::x25519_diffie_hellman(spk, &sender_montgomery);
    let dh2 = crypto::x25519_diffie_hellman(&identity_secret, &ek);
    let dh3 = crypto::x25519_diffie_hellman(spk, &ek);
    let mut km = concat3(&dh1, &dh2, &dh3);
    match opk {
        Some(opk_secret) => {
            let dh4 = crypto::x25519_diffie_hellman(&opk_secret, &ek);
            bytes::append_bytes(&mut km, &dh4);
        },
        None => {},
    }
    assert(km@ =~= receiver_key_material(sender_ik@, ek@, opt_view(opk), receiver_ik@, spk@));
    let sk = kdf(&km);
    proof {
        assert forall|sender_seed: Seq<u8>, ek_secret: Seq<u8>|
            sender_ik@ == crypto::ed25519_public(sender_seed) && ek@ == crypto::x25519_public(ek_secret)
            implies sk@ == sender_secret(
                sender_seed,
                ek_secret,
                crypto::ed25519_public(receiver_ik@),
                crypto::x25519_public(spk@),
                opt_public(opk),
            ) by {
            let receiver_public = crypto::ed25519_public(receiver_ik@);
            let spk_public = crypto::x25519_public(spk@);
            let sender_scalar = crypto::ed25519_scalar_bytes(sender_seed);
            // DH1: the sender's identity against our signed prekey.
            assert(sender_montgomery@ == crypto::x25519_public(sender_scalar));
            assert(dh1@ == crypto::x25519_dh(sender_scalar, spk_public));
            // DH2: the ephemeral key against our identity key.
            assert(dh2@ == crypto::x25519_dh(ek_secret, crypto::x25519_public(identity_secret@)));
            // DH3: the ephemeral key against our signed prekey.
            assert(dh3@ == crypto::x25519_dh(ek_secret, spk_public));
            let sent = sender_key_material(sender_seed, ek_secret, receiver_public, spk_public, opt_public(opk));
            match opk {
                Some(o) => {
                    assert(crypto::x25519_dh(o@, ek@) == crypto::x25519_dh(ek_secret, crypto::x25519_public(o@)));
                },
                None => {},
            }
            assert(km@ =~= sent);
        }
    }
    proof {
        lemma_receiver_secret_mixes_all_dh(sender_ik@, ek@, opt_view(opk), receiver_ik@, spk@);
    }
    sk
}

/// Bob's processing of Alice's initial message: he derives SK and decrypts the
/// ciphertext with AD = Encode(IKA) || Encode(IKB). The caller deletes the
/// one-time prekey it used, and SK on error.
///
/// A message that `initiate_send` produced for the public keys belonging to
/// Bob's secrets decrypts to what Alice sent, under the SK Alice derived.
pub fn initiate_recv(
    receiver_ik: &SigningKey,
    receiver_spk: &X25519Secret,
    sender_ik: &VerifyingKey,
    ek: X25519Public,
    receiver_opk: Option<X25519Secret>,
    ciphertext: &[u8],
) -> (res: Result<([u8; 32], Vec<u8>), X3DHError>)
    requires
        aead::envelope_readable(ciphertext@),
    ensures
        ciphertext@[0] != aead::VERSION_TAG
            ==> res == Err::<([u8; 32], Vec<u8>), X3DHError>(X3DHError::Aead(AeadError::Tag(ciphertext@[0]))),
        ciphertext@[0] == aead::VERSION_TAG
            ==> (res matches Err(e) ==> e == X3DHError::Aead(AeadError::Encrypt)),
        res matches Ok((sk, plaintext)) ==> {
            &&& sk@ == receiver_secret(sender_ik@, ek@, opt_view(receiver_opk), receiver_ik@, receiver_spk@)
            &&& ciphertext@ == aead::sealed_envelope(
                sk@,
                aead::envelope_nonce(ciphertext@),
                plaintext@,
                associated_data(sender_ik@, crypto::ed25519_public(receiver_ik@)),
            )
        },
        forall|sender_seed: Seq<u8>, ek_secret: Seq<u8>, nonce: Seq<u8>, m: Seq<u8>|
            #![trigger crypto::ed25519_public(sender_seed), crypto::x25519_public(ek_secret), aead::sealed_envelope(
                sender_secret(
                    sender_seed,
                    ek_secret,
                    crypto::ed25519_public(receiver_ik@),
                    crypto::x25519_public(receiver_spk@),
                    opt_public(receiver_opk),
                ),
                nonce,
                m,
                associated_data(crypto::ed25519_public(sender_seed), crypto::ed25519_public(receiver_ik@)),
            )]
            sender_ik@ == crypto::ed25519_public(sender_seed)
                && ek@ == crypto::x25519_public(ek_secret)
                && nonce.len() == aead::NONCE_LEN
                && crypto::aead_msg_len_ok(m.len())
                && ciphertext@ == aead::sealed_envelope(
                    sender_secret(
                        sender_seed,
                        ek_secret,
                        crypto::ed25519_public(receiver_ik@),
                        crypto::x25519_public(receiver_spk@),
                        opt_public(receiver_opk),
                    ),
                    nonce,
                    m,
                    associated_data(crypto::ed25519_public(sender_seed), crypto::ed25519_public(receiver_ik@)),
                )
                ==> (res matches Ok((sk, plaintext)) && plaintext@ == m && sk@ == sender_secret(
                    sender_seed,
                    ek_secret,
                    crypto::ed25519_public(receiver_ik@),
                    crypto::x25519_public(receiver_spk@),
                    opt_public(receiver_opk),
                )),
{
    let sk = initiate_recv_get_sk(sender_ik, ek, receiver_opk, receiver_ik, receiver_spk);
    let sender_bytes = sender_ik.to_bytes();
    let receiver_public = receiver_ik.verifying_key();
    let receiver_bytes = receiver_public.to_bytes();
    let mut ad: Vec<u8> = Vec::new();
    bytes::append_bytes(&mut ad, &sender_bytes);
    bytes::append_bytes(&mut ad, &receiver_bytes);
    assert(ad@ =~= associated_data(sender_ik@, crypto::ed25519_public(receiver_ik@)));
    match aead::decrypt_data(ciphertext, &ad, &sk) {
        Ok(plaintext) => Ok((sk, plaintext)),
        Err(e) => Err(X3DHError::Aead(e)),
    }
}

/// The text of an initial message: each key and the ciphertext in base64, one
/// per line.
pub open spec fn message_text(m: Message) -> Seq<char> {
    "From:   "@ + crypto::base64_standard(m.sender_ik@) + "\nEK:      "@ + crypto::base64_standard(m.ek@)
        + "\nOPK:     "@ + (match m.opk {
        Some(k) => crypto::base64_standard(k@),
        None => "(None)"@,
    }) + "\nPayload: "@ + crypto::base64_standard(m.ciphertext@) + "\n"@
}

impl Message {
    /// The text of this message: each key and the ciphertext in base64.
    pub fn to_string(&self) -> (res: String)
        ensures
            res@ == message_text(*self),
    {
        let ik = self.sender_ik.to_bytes();
        let mut text = "From:   ".to_owned();
        text.append(crypto::base64_encode(&ik).as_str());
        text.append("\nEK:      ");
        text.append(crypto::base64_encode(&self.ek).as_str());
        text.append("\nOPK:     ");
        match &self.opk {
            Some(k) => text.append(crypto::base64_encode(k).as_str()),
            None => text.append("(None)"),
        }
        text.append("\nPayload: ");
        text.append(crypto::base64_encode(self.ciphertext.as_slice()).as_str());
        text.append("\n");
        text
    }
}

} // verus!
