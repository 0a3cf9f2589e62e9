//! A messaging client's key store and its side of the protocol: registering
//! prekeys, opening a conversation and reading the messages that arrive.
//!
//! The client keeps its Ed25519 identity key, one X25519 signed prekey and the
//! secrets of the one-time prekeys it has published. A one-time prekey secret
//! is wiped as soon as a message that names it is read, so it serves once.
use vstd::prelude::*;
use vstd::string::StringSliceAdditionalSpecFns;
use crate::aead;
use crate::bundle::{self, create_prekey_bundle, sign_bundle};
use crate::crypto;
use crate::keys::{self, SigningKey, X25519Public, X25519Secret};
use crate::proto::{self, service as wire};
use crate::status::Status;
use crate::gossamer::{self, Action};
use crate::gossamer_service::{self, ActionRequest};
use crate::proto::gossamer as gwire;
use crate::x3dh::{self, initiate_recv, SignedPreKey, SignedPreKeys, X3DHError};

verus! {

/// How many one-time prekeys a client keeps on the server at least.
pub const MIN_SERVER_OPKS: u32 = 100;

/// Why a client operation failed.
#[derive(Debug, Clone)]
pub enum ClientError {
    /// No one-time prekey secret is held for this public key (base64).
    WipeOpk(String),
    /// No private key is held for this public key (base64).
    GetPreKey(String),
    /// The server's answer could not be read.
    Grpc(Status),
    /// The key agreement or the envelope failed.
    X3DH(X3DHError),
}

/// The secrets of the pairs whose public half is `k`, among `entries`.
pub open spec fn entries_map(entries: Seq<(X25519Public, X25519Secret)>) -> Map<Seq<u8>, Seq<u8>>
    decreases entries.len(),
{
    if entries.len() == 0 {
        Map::empty()
    } else {
        entries_map(entries.drop_last()).insert(entries.last().0@, entries.last().1@)
    }
}

/// The one-time prekeys after publishing `pairs`: each public key maps to its secret.
pub open spec fn with_pairs(opks: Map<Seq<u8>, Seq<u8>>, pairs: Seq<(X25519Secret, X25519Public)>) -> Map<Seq<u8>, Seq<u8>>
    decreases pairs.len(),
{
    if pairs.len() == 0 {
        opks
    } else {
        with_pairs(opks, pairs.drop_last()).insert(pairs.last().1@, pairs.last().0@)
    }
}

/// How many one-time prekeys to add after the server reported `num_keys`:
/// a hundred when it holds fewer than a hundred, none otherwise.
pub open spec fn top_up(num_keys: Option<u32>) -> u32 {
    let n = match num_keys {
        Some(n) => n,
        None => 0,
    };
    if n < MIN_SERVER_OPKS {
        MIN_SERVER_OPKS
    } else {
        0
    }
}

/// The top-up does not depend on how many keys are left below the threshold:
/// when the server holds fewer than a hundred one-time prekeys (or did not
/// say), a hundred new ones are made; when it holds a hundred or more, none.
pub proof fn lemma_top_up_is_a_hundred(n: u32)
    ensures
        n < 100 ==> top_up(Some(n)) == 100,
        n >= 100 ==> top_up(Some(n)) == 0,
        top_up(None) == 100,
{
}

/// How many one-time prekeys to add after a registration answered `num_keys`.
pub fn keys_to_add(num_keys: Option<u32>) -> (res: u32)
    ensures
        res == top_up(num_keys),
        num_keys matches Some(n) && n < 100 ==> res == 100,
        num_keys matches Some(n) && n >= 100 ==> res == 0,
        num_keys is None ==> res == 100,
{
    let n = match num_keys {
        Some(n) => n,
        None => 0,
    };
    if n < MIN_SERVER_OPKS {
        MIN_SERVER_OPKS
    } else {
        0
    }
}

/// The signed prekey of a well-formed wire bundle verifies under its identity key.
pub open spec fn bundle_spk_verifies(b: wire::PreKeyBundle) -> bool {
    let spk = b.signed_pre_key.unwrap();
    bundle::bundle_verifies(
        proto::field_bytes(b.identity_key),
        seq![proto::field_bytes(spk.pre_key)],
        proto::field_bytes(spk.signature),
    )
}

/// The public half of the one-time prekey a message names, as its holder knows it.
pub open spec fn opk_public(opks: Map<Seq<u8>, Seq<u8>>, opk: Option<X25519Public>) -> Option<Seq<u8>> {
    match opk {
        Some(k) => Some(crypto::x25519_public(opks[k@])),
        None => None,
    }
}

/// `w` is the wire form of the initial message that the owner of `seed` sends
/// to the owner of `bundle` with the ephemeral secret `ek` and the envelope
/// nonce `nonce`: the sender's identity key, the ephemeral public key, the
/// bundle's signed prekey and one-time prekey, and `message` sealed under the
/// sender's X3DH secret with both identity keys as associated data.
pub open spec fn is_initial_wire_message(
    w: wire::Message,
    seed: Seq<u8>,
    bundle: wire::PreKeyBundle,
    ek: Seq<u8>,
    nonce: Seq<u8>,
    message: Seq<u8>,
) -> bool {
    let ik = proto::field_bytes(bundle.identity_key);
    let spk = proto::field_bytes(bundle.signed_pre_key.unwrap().pre_key);
    let opk = wire::opt_bytes(bundle.one_time_key);
    &&& wire::opt_bytes(w.sender_identity_key) == Some(crypto::ed25519_public(seed))
    &&& wire::opt_bytes(w.ephemeral_key) == Some(crypto::x25519_public(ek))
    &&& wire::opt_bytes(w.pre_key) == Some(spk)
    &&& wire::opt_bytes(w.one_time_key) == opk
    &&& wire::opt_bytes(w.ciphertext) == Some(
        aead::sealed_envelope(
            x3dh::sender_secret(seed, ek, ik, spk, opk),
            nonce,
            message,
            x3dh::associated_data(crypto::ed25519_public(seed), ik),
        ),
    )
}

/// A client whose keys live in memory.
pub struct MemoryClient {
    ik: SigningKey,
    pre_key: X25519Secret,
    opks: Vec<(X25519Public, X25519Secret)>,
}

impl MemoryClient {
    /// The identity key's seed.
    pub closed spec fn identity_seed(&self) -> Seq<u8> {
        self.ik@
    }

    /// The signed prekey's secret.
    pub closed spec fn pre_key_secret(&self) -> Seq<u8> {
        self.pre_key@
    }

    /// The held one-time prekeys: each public key and its secret.
    pub closed spec fn opks(&self) -> Map<Seq<u8>, Seq<u8>> {
        entries_map(self.opks@)
    }

    /// The client's invariant: no public key is held twice.
    pub closed spec fn wf(&self) -> bool {
        forall|a: int, b: int| 0 <= a < b < self.opks@.len() ==> (#[trigger] self.opks@[a]).0@ != (#[trigger] self.opks@[b]).0@
    }

    /// A client with a fresh identity key and signed prekey and no one-time prekeys.
    pub fn new() -> (res: MemoryClient)
        ensures
            res.wf(),
            res.opks() == Map::<Seq<u8>, Seq<u8>>::empty(),
    {
        MemoryClient { ik: SigningKey::generate(), pre_key: keys::generate_x25519_secret(), opks: Vec::new() }
    }

    /// The position of `public` among the held one-time prekeys.
    fn find_opk(&self, public: &X25519Public) -> (res: Option<usize>)
        requires
            self.wf(),
        ensures
            res matches Some(i) ==> i < self.opks@.len() && self.opks@[i as int].0@ == public@,
            res is None ==> forall|j: int| 0 <= j < self.opks@.len() ==> (#[trigger] self.opks@[j]).0@ != public@,
    {
        let n = self.opks.len();
        let mut i: usize = 0;
        while i < n
            invariant
                n == self.opks@.len(),
                i <= n,
                forall|j: int| 0 <= j < i ==> (#[trigger] self.opks@[j]).0@ != public@,
            decreases n - i,
        {
            if crate::bytes::bytes_eq(&self.opks[i].0, public) {
                return Some(i);
            }
            i = i + 1;
        }
        None
    }

    /// Takes the secret of a published one-time prekey, removing it so that it
    /// cannot be used again.
    pub fn fetch_wipe_opk(&mut self, opk: &X25519Public) -> (res: Result<X25519Secret, ClientError>)
        requires
            old(self).wf(),
        ensures
            final(self).wf(),
            final(self).identity_seed() == old(self).identity_seed(),
            final(self).pre_key_secret() == old(self).pre_key_secret(),
            res is Ok <==> old(self).opks().contains_key(opk@),
            res matches Ok(s) ==> s@ == old(self).opks()[opk@] && final(self).opks() == old(self).opks().remove(opk@),
            res is Err ==> final(self).opks() == old(self).opks(),
            res is Err ==> (res matches Err(ClientError::WipeOpk(t)) && t@ == crypto::base64_standard(opk@)),
    {
        match self.find_opk(opk) {
            Some(i) => {
                let ghost before = self.opks@;
                proof {
                    lemma_entries_map_at(before, i as int);
                }
                let (_, secret) = self.opks.remove(i);
                proof {
                    lemma_entries_map_remove(before, i as int);
                    assert(self.opks@ == before.remove(i as int));
                    assert forall|a: int, b: int| 0 <= a < b < self.opks@.len() implies (#[trigger] self.opks@[a]).0@
                        != (#[trigger] self.opks@[b]).0@ by {
                        let a2 = if a < i { a } else { a + 1 };
                        let b2 = if b < i { b } else { b + 1 };
                        assert(self.opks@[a] == before[a2]);
                        assert(self.opks@[b] == before[b2]);
                    }
                }
                Ok(secret)
            },
            None => {
                proof {
                    lemma_entries_map_absent(self.opks@, opk@);
                }
                Err(ClientError::WipeOpk(crypto::base64_encode(opk)))
            },
        }
    }

    /// The identity key.
    pub fn get_ik(&self) -> (res: SigningKey)
        ensures
            res@ == self.identity_seed(),
    {
        SigningKey::from_bytes(self.ik.to_bytes())
    }

    /// The secret of the signed prekey (the client holds one, whatever public
    /// key the message names).
    pub fn get_pre_key(&self, _pre_key: &X25519Public) -> (res: Result<X25519Secret, ClientError>)
        ensures
            res matches Ok(s) && s@ == self.pre_key_secret(),
    {
        Ok(self.pre_key)
    }

    /// The signed prekey: its public key and the identity key's signature over it.
    pub fn get_spk(&self) -> (res: SignedPreKey)
        ensures
            res.pre_key@ == crypto::x25519_public(self.pre_key_secret()),
            res.signature@ == bundle::bundle_signature(self.identity_seed(), seq![res.pre_key@]),
    {
        let public = keys::x25519_public_key(&self.pre_key);
        let pairs = [(self.pre_key, public)];
        let signature = sign_bundle(&self.ik, &pairs);
        proof {
            assert(bundle::key_views(pairs@.map_values(|p: (X25519Secret, X25519Public)| p.1)) =~= seq![public@]);
        }
        SignedPreKey { pre_key: public, signature }
    }

    /// Creates `num_keys` one-time prekeys, keeps their secrets and answers
    /// their public keys signed by the identity key.
    pub fn create_opks(&mut self, num_keys: u32) -> (res: SignedPreKeys)
        requires
            old(self).wf(),
        ensures
            final(self).wf(),
            final(self).identity_seed() == old(self).identity_seed(),
            final(self).pre_key_secret() == old(self).pre_key_secret(),
            res.pre_keys@.len() == num_keys,
            forall|i: int| 0 <= i < num_keys ==> final(self).opks().contains_key(#[trigger] res.pre_keys@[i]@)
                && res.pre_keys@[i]@ == crypto::x25519_public(final(self).opks()[res.pre_keys@[i]@]),
            res.signature@ == bundle::bundle_signature(old(self).identity_seed(), bundle::key_views(res.pre_keys@)),
            forall|k: Seq<u8>| #[trigger] old(self).opks().contains_key(k) ==> final(self).opks().contains_key(k),
    {
        let created = create_prekey_bundle(&self.ik, num_keys);
        let n = created.bundle.len();
        let mut pre_keys: Vec<X25519Public> = Vec::new();
        let mut i: usize = 0;
        while i < n
            invariant
                self.wf(),
                self.ik == old(self).ik,
                self.pre_key == old(self).pre_key,
                n == created.bundle@.len(),
                n == num_keys,
                i <= n,
                pre_keys@.len() == i,
                forall|j: int| 0 <= j < n ==> #[trigger] created.bundle@[j].1@ == crypto::x25519_public(created.bundle@[j].0@),
                forall|j: int| 0 <= j < i ==> (#[trigger] pre_keys@[j]) == created.bundle@[j].1,
                forall|j: int| 0 <= j < i ==> self.opks().contains_key(#[trigger] pre_keys@[j]@)
                    && pre_keys@[j]@ == crypto::x25519_public(self.opks()[pre_keys@[j]@]),
                forall|k: Seq<u8>| #[trigger] old(self).opks().contains_key(k) ==> self.opks().contains_key(k),
            decreases n - i,
        {
            let (secret, public) = created.bundle[i];
            let ghost before = self.opks();
            self.put_opk(public, secret);
            pre_keys.push(public);
            proof {
                assert forall|j: int| 0 <= j < i + 1 implies self.opks().contains_key(#[trigger] pre_keys@[j]@)
                    && pre_keys@[j]@ == crypto::x25519_public(self.opks()[pre_keys@[j]@]) by {
                    if j < i && pre_keys@[j]@ != public@ {
                        assert(before.contains_key(pre_keys@[j]@));
                    }
                }
            }
            i = i + 1;
        }
        proof {
            assert(pre_keys@ =~= created.bundle@.map_values(|p: (X25519Secret, X25519Public)| p.1));
        }
        SignedPreKeys { pre_keys, signature: created.signature }
    }

    /// Holds `secret` as the secret of `public`, replacing any held before.
    fn put_opk(&mut self, public: X25519Public, secret: X25519Secret)
        requires
            old(self).wf(),
        ensures
            final(self).wf(),
            final(self).ik == old(self).ik,
            final(self).pre_key == old(self).pre_key,
            final(self).opks() == old(self).opks().insert(public@, secret@),
    {
        match self.find_opk(&public) {
            Some(i) => {
                let ghost before = self.opks@;
                proof {
                    lemma_entries_map_remove(before, i as int);
                }
                self.opks.remove(i);
                let ghost mid = self.opks@;
                self.opks.push((public, secret));
                proof {
                    assert(mid == before.remove(i as int));
                    assert(self.opks@.drop_last() == mid);
                    assert(self.opks() =~= entries_map(before).remove(public@).insert(public@, secret@));
                    assert forall|a: int, b: int| 0 <= a < b < self.opks@.len() implies (#[trigger] self.opks@[a]).0@
                        != (#[trigger] self.opks@[b]).0@ by {
                        let a2 = if a < i { a } else { a + 1 };
                        assert(self.opks@[a] == before[a2]);
                        if b < mid.len() {
                            let b2 = if b < i { b } else { b + 1 };
                            assert(self.opks@[b] == before[b2]);
                        }
                    }
                }
            },
            None => {
                let ghost before = self.opks@;
                self.opks.push((public, secret));
                proof {
                    assert(self.opks@.drop_last() == before);
                }
            },
        }
    }

    /// Reads an initial message: takes the one-time prekey secret it names
    /// (wiping it), then runs the receiver's half of X3DH and opens the
    /// envelope. Answers the plaintext.
    pub fn receive(&mut self, message: &x3dh::Message) -> (res: Result<Vec<u8>, ClientError>)
        requires
            old(self).wf(),
            aead::envelope_readable(message.ciphertext@),
        ensures
            final(self).wf(),
            final(self).identity_seed() == old(self).identity_seed(),
            final(self).pre_key_secret() == old(self).pre_key_secret(),
            match message.opk {
                Some(k) => if old(self).opks().contains_key(k@) {
                    final(self).opks() == old(self).opks().remove(k@)
                } else {
                    final(self).opks() == old(self).opks() && (res matches Err(ClientError::WipeOpk(t))
                        && t@ == crypto::base64_standard(k@))
                },
                None => final(self).opks() == old(self).opks(),
            },
            res matches Ok(plaintext) ==> {
                let opk_secret = match message.opk {
                    Some(k) => Some(old(self).opks()[k@]),
                    None => None,
                };
                let sk = x3dh::receiver_secret(
                    message.sender_ik@,
                    message.ek@,
                    opk_secret,
                    old(self).identity_seed(),
                    old(self).pre_key_secret(),
                );
                message.ciphertext@ == aead::sealed_envelope(
                    sk,
                    aead::envelope_nonce(message.ciphertext@),
                    plaintext@,
                    x3dh::associated_data(message.sender_ik@, crypto::ed25519_public(old(self).identity_seed())),
                )
            },
            forall|sender_seed: Seq<u8>, ek_secret: Seq<u8>, nonce: Seq<u8>, m: Seq<u8>|
                #![trigger crypto::ed25519_public(sender_seed), crypto::x25519_public(ek_secret), aead::sealed_envelope(
                    x3dh::sender_secret(
                        sender_seed,
                        ek_secret,
                        crypto::ed25519_public(old(self).identity_seed()),
                        crypto::x25519_public(old(self).pre_key_secret()),
                        opk_public(old(self).opks(), message.opk),
                    ),
                    nonce,
                    m,
                    x3dh::associated_data(crypto::ed25519_public(sender_seed), crypto::ed25519_public(old(self).identity_seed())),
                )]
                message.sender_ik@ == crypto::ed25519_public(sender_seed)
                    && message.ek@ == crypto::x25519_public(ek_secret)
                    && nonce.len() == aead::NONCE_LEN
                    && crypto::aead_msg_len_ok(m.len())
                    && (message.opk matches Some(k) ==> old(self).opks().contains_key(k@))
                    && message.ciphertext@ == aead::sealed_envelope(
                        x3dh::sender_secret(
                            sender_seed,
                            ek_secret,
                            crypto::ed25519_public(old(self).identity_seed()),
                            crypto::x25519_public(old(self).pre_key_secret()),
                            opk_public(old(self).opks(), message.opk),
                        ),
                        nonce,
                        m,
                        x3dh::associated_data(crypto::ed25519_public(sender_seed), crypto::ed25519_public(old(self).identity_seed())),
                    )
                    ==> (res matches Ok(p) && p@ == m),
    {
        let opk = match &message.opk {
            Some(k) => match self.fetch_wipe_opk(k) {
                Ok(s) => Some(s),
                Err(e) => return Err(e),
            },
            None => None,
        };
        let pre_key = match self.get_pre_key(&message.pre_key) {
            Ok(s) => s,
            Err(e) => return Err(e),
        };
        let ik = self.get_ik();
        match initiate_recv(&ik, &pre_key, &message.sender_ik, message.ek, opk, message.ciphertext.as_slice()) {
            Ok((_sk, plaintext)) => Ok(plaintext),
            Err(e) => Err(ClientError::X3DH(e)),
        }
    }

    /// A registration request: the identity key, the signed prekey, `num_keys`
    /// freshly created one-time prekeys and the push-notification token.
    pub fn registration_request(&mut self, num_keys: u32, fcm_token: Option<String>) -> (res: wire::RegisterPreKeyBundleRequest)
        requires
            old(self).wf(),
        ensures
            final(self).wf(),
            final(self).identity_seed() == old(self).identity_seed(),
            final(self).pre_key_secret() == old(self).pre_key_secret(),
            wire::opt_bytes(res.identity_key) == Some(crypto::ed25519_public(old(self).identity_seed())),
            res.signed_pre_key matches Some(spk) && wire::opt_bytes(spk.pre_key) == Some(
                crypto::x25519_public(old(self).pre_key_secret()),
            ) && wire::opt_bytes(spk.signature) == Some(
                bundle::bundle_signature(old(self).identity_seed(), seq![crypto::x25519_public(old(self).pre_key_secret())]),
            ),
            res.one_time_key_bundle matches Some(b) && b.pre_keys@.len() == num_keys && wire::opt_bytes(b.signature)
                == Some(bundle::bundle_signature(old(self).identity_seed(), b.pre_keys@.map_values(|k: Vec<u8>| k@)))
                && forall|i: int|
                0 <= i < num_keys ==> final(self).opks().contains_key(#[trigger] b.pre_keys@[i]@) && b.pre_keys@[i]@
                    == crypto::x25519_public(final(self).opks()[b.pre_keys@[i]@]),
            res.fcm_token == fcm_token,
    {
        let public = self.ik.verifying_key();
        let ik_bytes = public.to_bytes();
        let spk = self.get_spk().to_proto();
        let created = self.create_opks(num_keys);
        let opks = created.to_proto();
        proof {
            assert(opks.pre_keys@.map_values(|k: Vec<u8>| k@) =~= bundle::key_views(created.pre_keys@));
            assert forall|i: int| 0 <= i < num_keys implies self.opks().contains_key(#[trigger] opks.pre_keys@[i]@)
                && opks.pre_keys@[i]@ == crypto::x25519_public(self.opks()[opks.pre_keys@[i]@]) by {
                assert(opks.pre_keys@[i]@ == created.pre_keys@[i]@);
            }
        }
        wire::RegisterPreKeyBundleRequest {
            identity_key: Some(crate::bytes::to_vec(&ik_bytes)),
            signed_pre_key: Some(spk),
            one_time_key_bundle: Some(opks),
            fcm_token,
        }
    }

    /// Opens a conversation from a recipient's prekey bundle with the ephemeral
    /// secret `ek` and the envelope nonce `nonce`: runs the sender's half of
    /// X3DH and seals `message`. Answers the request that delivers it to the
    /// bundle's identity key.
    pub fn prepare_message_with(
        &self,
        bundle: &wire::PreKeyBundle,
        message: &[u8],
        ek: &X25519Secret,
        nonce: &[u8; 12],
    ) -> (res: Result<wire::SendMessageRequest, ClientError>)
        ensures
            wire::pre_key_bundle_error(*bundle) is Some ==> (res matches Err(ClientError::Grpc(s)) && Some(s.message@)
                == wire::pre_key_bundle_error(*bundle)),
            res is Ok <==> wire::pre_key_bundle_error(*bundle) is None && bundle_spk_verifies(*bundle)
                && crypto::aead_msg_len_ok(message@.len()),
            wire::pre_key_bundle_error(*bundle) is None && !bundle_spk_verifies(*bundle) ==> (res matches Err(
                ClientError::X3DH(X3DHError::SignatureValidation),
            )),
            res matches Err(e) ==> !(e is WipeOpk),
            res matches Ok(r) ==> (r.recipient_identity_key matches Some(k) && k@ == proto::field_bytes(
                bundle.identity_key,
            )) && (r.message matches Some(w) && is_initial_wire_message(
                w,
                self.identity_seed(),
                *bundle,
                ek@,
                nonce@,
                message@,
            )),
    {
        let parsed = match x3dh::PreKeyBundle::try_from_proto(bundle) {
            Ok(b) => b,
            Err(s) => return Err(ClientError::Grpc(s)),
        };
        let recipient = parsed.ik.to_bytes();
        let ik = self.get_ik();
        match x3dh::initiate_send_with(parsed, &ik, message, ek, nonce) {
            Ok((_sk, m)) => Ok(wire::SendMessageRequest {
                recipient_identity_key: Some(crate::bytes::to_vec(&recipient)),
                message: Some(m.to_proto()),
            }),
            Err(e) => Err(ClientError::X3DH(e)),
        }
    }

    /// Opens a conversation from a recipient's prekey bundle with a fresh
    /// random ephemeral secret and nonce, as `prepare_message_with` does.
    pub fn prepare_message(&self, bundle: &wire::PreKeyBundle, message: &[u8]) -> (res: Result<
        wire::SendMessageRequest,
        ClientError,
    >)
        ensures
            wire::pre_key_bundle_error(*bundle) is Some ==> (res matches Err(ClientError::Grpc(s)) && Some(s.message@)
                == wire::pre_key_bundle_error(*bundle)),
            res is Ok <==> wire::pre_key_bundle_error(*bundle) is None && bundle_spk_verifies(*bundle)
                && crypto::aead_msg_len_ok(message@.len()),
            wire::pre_key_bundle_error(*bundle) is None && !bundle_spk_verifies(*bundle) ==> (res matches Err(
                ClientError::X3DH(X3DHError::SignatureValidation),
            )),
            res matches Ok(r) ==> (r.recipient_identity_key matches Some(k) && k@ == proto::field_bytes(
                bundle.identity_key,
            )) && (r.message matches Some(w) && exists|ek: Seq<u8>, nonce: Seq<u8>|
                ek.len() == 32 && nonce.len() == aead::NONCE_LEN && #[trigger] is_initial_wire_message(
                    w,
                    self.identity_seed(),
                    *bundle,
                    ek,
                    nonce,
                    message@,
                )),
            res matches Err(e) ==> !(e is WipeOpk),
    {
        let ek = crypto::x25519_random_secret();
        let nonce = crypto::chacha20poly1305_random_nonce();
        let res = self.prepare_message_with(bundle, message, &ek, &nonce);
        proof {
            if res is Ok {
                assert(ek@.len() == 32 && nonce@.len() == aead::NONCE_LEN);
                assert(is_initial_wire_message(
                    res->Ok_0.message.unwrap(),
                    self.identity_seed(),
                    *bundle,
                    ek@,
                    nonce@,
                    message@,
                ));
            }
        }
        res
    }
}

/// The map of a list of pairs holds, for the public key at `i`, the secret at `i`
/// when no other pair has that public key.
proof fn lemma_entries_map_at(entries: Seq<(X25519Public, X25519Secret)>, i: int)
    requires
        0 <= i < entries.len(),
        forall|a: int, b: int| 0 <= a < b < entries.len() ==> (#[trigger] entries[a]).0@ != (#[trigger] entries[b]).0@,
    ensures
        entries_map(entries).contains_key(entries[i].0@),
        entries_map(entries)[entries[i].0@] == entries[i].1@,
    decreases entries.len(),
{
    if i < entries.len() - 1 {
        let d = entries.drop_last();
        assert(d[i] == entries[i]);
        assert forall|a: int, b: int| 0 <= a < b < d.len() implies (#[trigger] d[a]).0@ != (#[trigger] d[b]).0@ by {
            assert(d[a] == entries[a] && d[b] == entries[b]);
        }
        lemma_entries_map_at(d, i);
        assert(entries[entries.len() - 1].0@ != entries[i].0@);
    }
}

/// A public key held by no pair is not in the map.
proof fn lemma_entries_map_absent(entries: Seq<(X25519Public, X25519Secret)>, k: Seq<u8>)
    requires
        forall|j: int| 0 <= j < entries.len() ==> (#[trigger] entries[j]).0@ != k,
    ensures
        !entries_map(entries).contains_key(k),
    decreases entries.len(),
{
    if entries.len() > 0 {
        let d = entries.drop_last();
        assert forall|j: int| 0 <= j < d.len() implies (#[trigger] d[j]).0@ != k by {
            assert(d[j] == entries[j]);
        }
        lemma_entries_map_absent(d, k);
    }
}

/// Removing the pair at `i` removes its public key from the map and keeps the rest.
proof fn lemma_entries_map_remove(entries: Seq<(X25519Public, X25519Secret)>, i: int)
    requires
        0 <= i < entries.len(),
        forall|a: int, b: int| 0 <= a < b < entries.len() ==> (#[trigger] entries[a]).0@ != (#[trigger] entries[b]).0@,
    ensures
        entries_map(entries.remove(i)) == entries_map(entries).remove(entries[i].0@),
    decreases entries.len(),
{
    let k = entries[i].0@;
    if i == entries.len() - 1 {
        assert(entries.remove(i) =~= entries.drop_last());
        let d = entries.drop_last();
        assert forall|j: int| 0 <= j < d.len() implies (#[trigger] d[j]).0@ != k by {
            assert(d[j] == entries[j]);
        }
        lemma_entries_map_absent(d, k);
        assert(entries_map(d) =~= entries_map(entries).remove(k));
    } else {
        let d = entries.drop_last();
        assert forall|a: int, b: int| 0 <= a < b < d.len() implies (#[trigger] d[a]).0@ != (#[trigger] d[b]).0@ by {
            assert(d[a] == entries[a] && d[b] == entries[b]);
        }
        assert(d[i] == entries[i]);
        lemma_entries_map_remove(d, i);
        assert(entries.remove(i).drop_last() =~= d.remove(i));
        assert(entries.remove(i).last() == entries.last());
        assert(entries.last().0@ != k);
        assert(entries_map(entries.remove(i)) =~= entries_map(entries).remove(k));
    }
}

/// The Gossamer request that claims `username` for the client's identity key:
/// an `AppendKey` of that key for the username's bytes, signed with it.
pub fn register_username(identity_key: &SigningKey, username: &str) -> (res: ActionRequest)
    ensures
        res.message matches Some(m) && {
            let contents = gwire::encode_fields(
                (
                    Some(username.spec_bytes()),
                    Some(crypto::ed25519_public(identity_key@)),
                    Some(gossamer::action_value(Action::AppendKey)),
                ),
            );
            &&& proto::field_bytes(m.contents) == contents
            &&& proto::field_bytes(m.signature) == crypto::ed25519_sign(identity_key@, contents)
            &&& proto::field_bytes(m.identity_key) == crypto::ed25519_public(identity_key@)
        },
{
    let public_key = identity_key.verifying_key();
    let provider = crate::bytes::to_vec(username.as_bytes());
    let message = gossamer::Message { provider, public_key, action: Action::AppendKey };
    let encoded = message.to_proto().encode_to_vec();
    let signature = identity_key.sign(encoded.as_slice());
    let signed = gossamer::SignedMessage { message, signature, identity_key: public_key };
    ActionRequest { message: Some(signed.to_proto()) }
}

/// The keys the ledger lists for `username`, in the ledger's order.
pub fn get_keys(ledger: &gwire::Ledger, username: &[u8]) -> (res: Vec<Vec<u8>>)
    ensures
        res@.map_values(|k: Vec<u8>| k@) == ledger_keys(ledger.users@, username@),
{
    let n = ledger.users.len();
    let mut out: Vec<Vec<u8>> = Vec::new();
    let mut i: usize = 0;
    while i < n
        invariant
            n == ledger.users@.len(),
            i <= n,
            out@.map_values(|k: Vec<u8>| k@) == ledger_keys(ledger.users@.subrange(0, i as int), username@),
        decreases n - i,
    {
        let ghost before = out@;
        let ghost sub = ledger.users@.subrange(0, i + 1);
        assert(sub.drop_last() =~= ledger.users@.subrange(0, i as int));
        let user = &ledger.users[i];
        let matches = match &user.provider {
            Some(p) => crate::bytes::bytes_eq(p.as_slice(), username),
            None => false,
        };
        if matches {
            let m = user.public_keys.len();
            let mut j: usize = 0;
            while j < m
                invariant
                    m == user.public_keys@.len(),
                    j <= m,
                    out@.map_values(|k: Vec<u8>| k@) == before.map_values(|k: Vec<u8>| k@) + user.public_keys@.subrange(
                        0,
                        j as int,
                    ).map_values(|k: Vec<u8>| k@),
                decreases m - j,
            {
                let ghost prev = out@;
                out.push(crate::bytes::to_vec(user.public_keys[j].as_slice()));
                proof {
                    assert(out@.map_values(|k: Vec<u8>| k@) =~= prev.map_values(|k: Vec<u8>| k@).push(
                        user.public_keys@[j as int]@,
                    ));
                    assert(user.public_keys@.subrange(0, j + 1).map_values(|k: Vec<u8>| k@) =~= user.public_keys@.subrange(
                        0,
                        j as int,
                    ).map_values(|k: Vec<u8>| k@).push(user.public_keys@[j as int]@));
                }
                j = j + 1;
                assert(out@.map_values(|k: Vec<u8>| k@) =~= before.map_values(|k: Vec<u8>| k@)
                    + user.public_keys@.subrange(0, j as int).map_values(|k: Vec<u8>| k@));
            }
            assert(user.public_keys@.subrange(0, m as int) =~= user.public_keys@);
        }
        assert(out@.map_values(|k: Vec<u8>| k@) =~= ledger_keys(sub, username@));
        i = i + 1;
    }
    assert(ledger.users@.subrange(0, n as int) =~= ledger.users@);
    out
}

/// The keys that the entries of `users` for `username` list, in order.
pub open spec fn ledger_keys(users: Seq<gwire::User>, username: Seq<u8>) -> Seq<Seq<u8>>
    decreases users.len(),
{
    if users.len() == 0 {
        Seq::empty()
    } else {
        let rest = ledger_keys(users.drop_last(), username);
        if gossamer_service::user_provider(users.last()) == Some(username) {
            rest + users.last().public_keys@.map_values(|k: Vec<u8>| k@)
        } else {
            rest
        }
    }
}

} // verus!
