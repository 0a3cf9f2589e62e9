//! Gossamer: the key-transparency ledger that maps providers (hashes of
//! usernames) to the identity keys allowed to speak for them.
//!
//! A change is a `Message` (append or revoke a key for a provider) signed by an
//! identity key. The ledger accepts it when the signer is authorized for the
//! provider, or when the signer claims a provider nobody holds with its own key.
use vstd::prelude::*;
use crate::crypto;
use crate::keys::{Signature, VerifyingKey};
use crate::proto::{self, gossamer as wire};
use crate::status::{Code, Status};

verus! {

/// What a ledger message does to the provider's key set.
#[derive(Debug, PartialEq, Eq, Structural, Clone, Copy)]
pub enum Action {
    AppendKey,
    RevokeKey,
}

/// The wire value of an action.
pub open spec fn action_value(a: Action) -> i32 {
    match a {
        Action::AppendKey => 1,
        Action::RevokeKey => 2,
    }
}

/// The action a wire value stands for, if any.
pub open spec fn action_of(v: Option<i32>) -> Option<Action> {
    match v {
        Some(1) => Some(Action::AppendKey),
        Some(2) => Some(Action::RevokeKey),
        _ => None,
    }
}

impl Action {
    /// The action with wire value `v`, if any.
    pub fn try_from_i32(v: i32) -> (res: Option<Action>)
        ensures
            res == action_of(Some(v)),
    {
        if v == 1 {
            Some(Action::AppendKey)
        } else if v == 2 {
            Some(Action::RevokeKey)
        } else {
            None
        }
    }

    /// The wire value of this action.
    pub fn to_i32(&self) -> (res: i32)
        ensures
            res == action_value(*self),
    {
        match self {
            Action::AppendKey => 1,
            Action::RevokeKey => 2,
        }
    }
}

/// A change to the ledger.
#[derive(Clone, Debug)]
pub struct Message {
    pub provider: Vec<u8>,
    pub public_key: VerifyingKey,
    pub action: Action,
}

/// A change to the ledger, the signature over its encoding, and the signer.
#[derive(Clone, Debug)]
pub struct SignedMessage {
    pub message: Message,
    pub signature: Signature,
    pub identity_key: VerifyingKey,
}

/// A ledger change by value: provider, public key, action, signer.
pub type ChangeView = (Seq<u8>, Seq<u8>, Action, Seq<u8>);

/// The change that the fields of a wire message describe: a public key that is
/// a curve point, a known action and a provider.
pub open spec fn message_from_fields(f: wire::Fields) -> Option<(Seq<u8>, Seq<u8>, Action)> {
    let key = match f.1 {
        Some(k) => k,
        None => Seq::empty(),
    };
    if !proto::is_verifying_key(key) {
        None
    } else {
        match (action_of(f.2), f.0) {
            (Some(a), Some(p)) => Some((p, key, a)),
            _ => None,
        }
    }
}

/// The stage at which reading a signed wire message fails, with the code it is
/// answered with; `None` when it is a valid signed change.
pub open spec fn signed_message_error(m: wire::SignedMessage) -> Option<Code> {
    let sig = proto::field_bytes(m.signature);
    let ik = proto::field_bytes(m.identity_key);
    let contents = proto::field_bytes(m.contents);
    if sig.len() != 64 {
        Some(Code::InvalidArgument)
    } else if !proto::is_verifying_key(ik) {
        Some(Code::InvalidArgument)
    } else if !crypto::ed25519_verify(ik, contents, sig) {
        Some(Code::Unauthenticated)
    } else {
        match wire::decode_fields(contents) {
            None => Some(Code::InvalidArgument),
            Some(f) => if message_from_fields(f) is None { Some(Code::InvalidArgument) } else { None },
        }
    }
}

/// A change read back from its own encoding is the change: decoding the
/// wire form of a message with a curve-point key gives back its provider, key
/// and action.
pub proof fn lemma_message_roundtrip(provider: Seq<u8>, key: Seq<u8>, action: Action)
    requires
        proto::is_verifying_key(key),
        provider.len() <= u64::MAX,
    ensures
        wire::decode_fields(wire::encode_fields((Some(provider), Some(key), Some(action_value(action))))) == Some(
            (Some(provider), Some(key), Some(action_value(action))),
        ),
        message_from_fields((Some(provider), Some(key), Some(action_value(action)))) == Some((provider, key, action)),
{
    wire::lemma_decode_encode((Some(provider), Some(key), Some(action_value(action))));
}

/// The change a valid signed wire message carries.
pub open spec fn signed_change(m: wire::SignedMessage) -> ChangeView {
    let f = wire::decode_fields(proto::field_bytes(m.contents)).unwrap();
    let c = message_from_fields(f).unwrap();
    (c.0, c.1, c.2, proto::field_bytes(m.identity_key))
}

impl Message {
    /// Reads a change from its wire form.
    pub fn try_from_proto(value: &wire::Message) -> (res: Result<Message, Status>)
        ensures
            res is Ok <==> message_from_fields(wire::fields_of(*value)) is Some,
            res matches Ok(m) ==> message_from_fields(wire::fields_of(*value)) == Some(
                (m.provider@, m.public_key@, m.action),
            ),
            res matches Err(s) ==> s.code == Code::InvalidArgument,
    {
        let key_bytes = proto::field_or_empty(&value.public_key);
        let public_key = match proto::parse_verifying_key(&key_bytes) {
            Ok(k) => k,
            Err(e) => {
                return Err(Status::with_detail(Code::InvalidArgument, "AppendKey has invalid public_key: ", e.text()));
            },
        };
        let action = match value.action {
            Some(v) => Action::try_from_i32(v),
            None => None,
        };
        let action = match action {
            Some(a) => a,
            None => return Err(Status::new(Code::InvalidArgument, "invalid action")),
        };
        let provider = match &value.provider {
            Some(p) => crate::bytes::to_vec(p.as_slice()),
            None => return Err(Status::new(Code::InvalidArgument, "message missing provider")),
        };
        Ok(Message { provider, public_key, action })
    }

    /// The wire form of a change.
    pub fn to_proto(&self) -> (res: wire::Message)
        ensures
            wire::fields_of(res) == (Some(self.provider@), Some(self.public_key@), Some(action_value(self.action))),
    {
        let key = self.public_key.to_bytes();
        wire::Message {
            provider: Some(crate::bytes::to_vec(self.provider.as_slice())),
            public_key: Some(crate::bytes::to_vec(&key)),
            action: Some(self.action.to_i32()),
        }
    }
}

impl SignedMessage {
    /// Reads a signed change from its wire form, verifying that the identity key
    /// signed the contents.
    pub fn try_from_proto(value: &wire::SignedMessage) -> (res: Result<SignedMessage, Status>)
        ensures
            res is Ok <==> signed_message_error(*value) is None,
            res matches Err(s) ==> Some(s.code) == signed_message_error(*value),
            res matches Ok(sm) ==> signed_change(*value) == (
                sm.message.provider@,
                sm.message.public_key@,
                sm.message.action,
                sm.identity_key@,
            ),
            res matches Ok(sm) ==> sm.signature@ == proto::field_bytes(value.signature),
            forall|seed: Seq<u8>|
                #![trigger crypto::ed25519_public(seed), crypto::ed25519_sign(seed, proto::field_bytes(value.contents))]
                proto::field_bytes(value.identity_key) == crypto::ed25519_public(seed)
                    && proto::is_verifying_key(crypto::ed25519_public(seed))
                    && proto::field_bytes(value.signature) == crypto::ed25519_sign(seed, proto::field_bytes(value.contents))
                    && crypto::ed25519_sign_regular(seed, proto::field_bytes(value.contents))
                    && proto::field_bytes(value.signature).len() == 64
                    && (wire::decode_fields(proto::field_bytes(value.contents)) matches Some(f) && message_from_fields(f) is Some)
                    ==> res is Ok,
    {
        let sig_bytes = proto::field_or_empty(&value.signature);
        if sig_bytes.len() != 64 {
            return Err(Status::new(Code::InvalidArgument, "SignedMessage has an invalid X25519 Signature"));
        }
        let mut signature = [0u8; 64];
        let mut i: usize = 0;
        while i < 64
            invariant
                sig_bytes@.len() == 64,
                i <= 64,
                forall|j: int| 0 <= j < i ==> signature@[j] == sig_bytes@[j],
            decreases 64 - i,
        {
            signature[i] = sig_bytes[i];
            i = i + 1;
        }
        assert(signature@ =~= sig_bytes@);
        let ik_bytes = proto::field_or_empty(&value.identity_key);
        let identity_key = match proto::parse_verifying_key(&ik_bytes) {
            Ok(k) => k,
            Err(e) => {
                return Err(Status::with_detail(
                    Code::InvalidArgument,
                    "SignedMessage has invalid sender_identity_key: ",
                    e.text(),
                ));
            },
        };
        let contents = proto::field_or_empty(&value.contents);
        if !identity_key.verify_strict(&contents, &signature) {
            return Err(Status::new(Code::Unauthenticated, "SignedMessage signature invalid."));
        }
        let decoded = match wire::Message::decode(&contents) {
            Some(m) => m,
            None => return Err(Status::new(Code::InvalidArgument, "contents are not serialized signed message.")),
        };
        let message = match Message::try_from_proto(&decoded) {
            Ok(m) => m,
            Err(_) => {
                return Err(Status::new(
                    Code::InvalidArgument,
                    "signed message does not contain correctly serialized message",
                ));
            },
        };
        Ok(SignedMessage { message, signature, identity_key })
    }

    /// The wire form of a signed change: the encoded message, the signature and
    /// the signer's key.
    pub fn to_proto(&self) -> (res: wire::SignedMessage)
        ensures
            proto::field_bytes(res.contents) == wire::encode_fields(
                (Some(self.message.provider@), Some(self.message.public_key@), Some(action_value(self.message.action))),
            ),
            proto::field_bytes(res.signature) == self.signature@,
            proto::field_bytes(res.identity_key) == self.identity_key@,
            res.contents is Some && res.signature is Some && res.identity_key is Some,
    {
        let contents = self.message.to_proto().encode_to_vec();
        let key = self.identity_key.to_bytes();
        wire::SignedMessage {
            contents: Some(contents),
            signature: Some(crate::bytes::to_vec(&self.signature)),
            identity_key: Some(crate::bytes::to_vec(&key)),
        }
    }
}

} // verus!
