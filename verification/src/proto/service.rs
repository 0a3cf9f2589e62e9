//! The Brongnal service's wire messages and their conversion to and from the
//! X3DH protocol values.
//!
//! Reading a wire value checks every key's length (and, for an identity key,
//! that it is a curve point) and every signature's length; each refusal is an
//! `InvalidArgument` status whose text names the field.
use vstd::prelude::*;
use crate::bytes;
use crate::keys::Signature;
use crate::proto::{self, KeyError};
use crate::proto::gossamer::{bytes_field, write_bytes_field};
use crate::status::{Code, Status};
use crate::x3dh;

verus! {

/// A prekey and the identity key's signature over it.
#[derive(Clone, Debug, PartialEq, Eq, Default)]
pub struct SignedPreKey {
    pub pre_key: Option<Vec<u8>>,
    pub signature: Option<Vec<u8>>,
}

/// Several prekeys and one signature over all of them.
#[derive(Clone, Debug, PartialEq, Eq, Default)]
pub struct SignedPreKeys {
    pub pre_keys: Vec<Vec<u8>>,
    pub signature: Option<Vec<u8>>,
}

/// An X3DH initial message as it travels.
#[derive(Clone, Debug, PartialEq, Eq, Default)]
pub struct Message {
    pub sender_identity_key: Option<Vec<u8>>,
    pub ephemeral_key: Option<Vec<u8>>,
    pub pre_key: Option<Vec<u8>>,
    pub one_time_key: Option<Vec<u8>>,
    pub ciphertext: Option<Vec<u8>>,
}

/// The keys a sender needs to start a conversation.
#[derive(Clone, Debug, PartialEq, Eq, Default)]
pub struct PreKeyBundle {
    pub identity_key: Option<Vec<u8>>,
    pub one_time_key: Option<Vec<u8>>,
    pub signed_pre_key: Option<SignedPreKey>,
}

/// A device's registration: its identity key, signed prekey, a batch of
/// signed one-time prekeys and, optionally, a push-notification token.
#[derive(Clone, Debug, PartialEq, Eq, Default)]
pub struct RegisterPreKeyBundleRequest {
    pub identity_key: Option<Vec<u8>>,
    pub signed_pre_key: Option<SignedPreKey>,
    pub one_time_key_bundle: Option<SignedPreKeys>,
    pub fcm_token: Option<String>,
}

/// The reply to a registration: how many one-time prekeys the server holds.
#[derive(Clone, Debug, PartialEq, Eq, Default)]
pub struct RegisterPreKeyBundleResponse {
    pub num_keys: Option<u32>,
}

/// A request for someone's prekey bundle.
#[derive(Clone, Debug, PartialEq, Eq, Default)]
pub struct PreKeyBundleRequest {
    pub identity_key: Option<Vec<u8>>,
}

/// A message for a recipient.
#[derive(Clone, Debug, PartialEq, Eq, Default)]
pub struct SendMessageRequest {
    pub recipient_identity_key: Option<Vec<u8>>,
    pub message: Option<Message>,
}

/// The reply to a delivered message.
#[derive(Clone, Debug, PartialEq, Eq, Default)]
pub struct SendMessageResponse {}

/// A request for one's queued messages.
#[derive(Clone, Debug, PartialEq, Eq, Default)]
pub struct RetrieveMessagesRequest {
    pub identity_key: Option<Vec<u8>>,
}

/// The view of an optional bytes field.
pub open spec fn opt_bytes(field: Option<Vec<u8>>) -> Option<Seq<u8>> {
    match field {
        Some(v) => Some(v@),
        None => None,
    }
}

/// A present bytes field, encoded; nothing for an absent one.
pub open spec fn opt_field(tag: u64, f: Option<Seq<u8>>) -> Seq<u8> {
    match f {
        Some(d) => bytes_field(tag, d),
        None => Seq::empty(),
    }
}

/// The protobuf encoding of a message: its present fields in field order, the
/// fields numbered as they are declared.
pub open spec fn encode_message(m: Message) -> Seq<u8> {
    let v = message_view(m);
    opt_field(1, v.0) + opt_field(2, v.1) + opt_field(3, v.2) + opt_field(4, v.3) + opt_field(5, v.4)
}

fn write_opt_field(out: &mut Vec<u8>, tag: u64, f: &Option<Vec<u8>>)
    requires
        tag < 16,
    ensures
        final(out)@ == old(out)@ + opt_field(tag, opt_bytes(*f)),
{
    match f {
        Some(d) => write_bytes_field(out, tag, d.as_slice()),
        None => {
            assert(out@ =~= out@ + Seq::<u8>::empty());
        },
    }
}

impl Message {
    /// The protobuf encoding of this message.
    pub fn encode_to_vec(&self) -> (res: Vec<u8>)
        ensures
            res@ == encode_message(*self),
    {
        let mut out: Vec<u8> = Vec::new();
        write_opt_field(&mut out, 1, &self.sender_identity_key);
        write_opt_field(&mut out, 2, &self.ephemeral_key);
        write_opt_field(&mut out, 3, &self.pre_key);
        write_opt_field(&mut out, 4, &self.one_time_key);
        write_opt_field(&mut out, 5, &self.ciphertext);
        assert(out@ =~= encode_message(*self));
        out
    }
}

/// Whether two optional bytes fields hold the same value.
pub fn same_field(a: &Option<Vec<u8>>, b: &Option<Vec<u8>>) -> (res: bool)
    ensures
        res == (opt_bytes(*a) == opt_bytes(*b)),
{
    match (a, b) {
        (Some(x), Some(y)) => bytes::bytes_eq(x.as_slice(), y.as_slice()),
        (None, None) => true,
        _ => false,
    }
}

/// A wire message by value: its five fields.
pub open spec fn message_view(m: Message) -> (Option<Seq<u8>>, Option<Seq<u8>>, Option<Seq<u8>>, Option<Seq<u8>>, Option<Seq<u8>>) {
    (
        opt_bytes(m.sender_identity_key),
        opt_bytes(m.ephemeral_key),
        opt_bytes(m.pre_key),
        opt_bytes(m.one_time_key),
        opt_bytes(m.ciphertext),
    )
}

/// Whether two wire messages carry the same fields (and so the same encoding).
pub fn same_message(a: &Message, b: &Message) -> (res: bool)
    ensures
        res == (message_view(*a) == message_view(*b)),
{
    same_field(&a.sender_identity_key, &b.sender_identity_key)
        && same_field(&a.ephemeral_key, &b.ephemeral_key)
        && same_field(&a.pre_key, &b.pre_key)
        && same_field(&a.one_time_key, &b.one_time_key)
        && same_field(&a.ciphertext, &b.ciphertext)
}

/// `"Invalid " + field + ": " + why` for a key that could not be read.
pub open spec fn invalid_key_text(field: Seq<char>, why: KeyError) -> Seq<char> {
    "Invalid "@ + field + ": "@ + proto::key_error_text(why)
}

/// Builds the refusal for a key field that could not be read.
fn invalid_key(field: &str, why: KeyError) -> (res: Status)
    ensures
        res.code == Code::InvalidArgument,
        res.message@ == invalid_key_text(field@, why),
{
    let mut text = "Invalid ".to_owned();
    text.append(field);
    text.append(": ");
    text.append(why.text());
    Status { code: Code::InvalidArgument, message: text }
}

/// Copies 64 bytes into a signature.
fn signature_from(bytes: &[u8]) -> (res: Signature)
    requires
        bytes@.len() == 64,
    ensures
        res@ == bytes@,
{
    let mut signature = [0u8; 64];
    let mut i: usize = 0;
    while i < 64
        invariant
            bytes@.len() == 64,
            i <= 64,
            forall|j: int| 0 <= j < i ==> signature@[j] == bytes@[j],
        decreases 64 - i,
    {
        signature[i] = bytes[i];
        i = i + 1;
    }
    assert(signature@ =~= bytes@);
    signature
}

/// Why a wire signed prekey cannot be read, if it cannot.
pub open spec fn signed_pre_key_error(w: SignedPreKey) -> Option<Seq<char>> {
    if proto::field_bytes(w.pre_key).len() != 32 {
        Some(invalid_key_text("SignedPreKey"@, KeyError::InvalidX25519Key))
    } else if proto::field_bytes(w.signature).len() != 64 {
        Some("Pre Key has an invalid X25519 Signature"@)
    } else {
        None
    }
}

impl x3dh::SignedPreKey {
    /// The wire form of a signed prekey.
    pub fn to_proto(&self) -> (res: SignedPreKey)
        ensures
            res.pre_key matches Some(k) && k@ == self.pre_key@,
            res.signature matches Some(s) && s@ == self.signature@,
            signed_pre_key_error(res) is None,
    {
        SignedPreKey {
            pre_key: Some(bytes::to_vec(&self.pre_key)),
            signature: Some(bytes::to_vec(&self.signature)),
        }
    }

    /// Reads a signed prekey: a 32-byte prekey and a 64-byte signature.
    pub fn try_from_proto(value: &SignedPreKey) -> (res: Result<x3dh::SignedPreKey, Status>)
        ensures
            res is Ok <==> signed_pre_key_error(*value) is None,
            res matches Ok(k) ==> k.pre_key@ == proto::field_bytes(value.pre_key)
                && k.signature@ == proto::field_bytes(value.signature),
            res matches Err(s) ==> s.code == Code::InvalidArgument
                && Some(s.message@) == signed_pre_key_error(*value),
    {
        let signature = proto::field_or_empty(&value.signature);
        let pre_key_bytes = proto::field_or_empty(&value.pre_key);
        let pre_key = match proto::parse_x25519_public_key(&pre_key_bytes) {
            Ok(k) => k,
            Err(e) => return Err(invalid_key("SignedPreKey", e)),
        };
        if signature.len() != 64 {
            return Err(Status::new(Code::InvalidArgument, "Pre Key has an invalid X25519 Signature"));
        }
        let signature = signature_from(&signature);
        Ok(x3dh::SignedPreKey { pre_key, signature })
    }
}

impl x3dh::SignedPreKeys {
    /// The wire form of a batch of signed prekeys.
    pub fn to_proto(&self) -> (res: SignedPreKeys)
        ensures
            res.pre_keys@.len() == self.pre_keys@.len(),
            forall|i: int| 0 <= i < self.pre_keys@.len() ==> (#[trigger] res.pre_keys@[i])@ == self.pre_keys@[i]@,
            res.signature matches Some(s) && s@ == self.signature@,
    {
        let n = self.pre_keys.len();
        let mut pre_keys: Vec<Vec<u8>> = Vec::new();
        let mut i: usize = 0;
        while i < n
            invariant
                n == self.pre_keys@.len(),
                i <= n,
                pre_keys@.len() == i,
                forall|j: int| 0 <= j < i ==> (#[trigger] pre_keys@[j])@ == self.pre_keys@[j]@,
            decreases n - i,
        {
            pre_keys.push(bytes::to_vec(&self.pre_keys[i]));
            i = i + 1;
        }
        SignedPreKeys { pre_keys, signature: Some(bytes::to_vec(&self.signature)) }
    }
}

/// Why a wire message cannot be read as an initial message, if it cannot.
pub open spec fn message_error(w: Message) -> Option<Seq<char>> {
    if !proto::is_verifying_key(proto::field_bytes(w.sender_identity_key)) {
        Some(invalid_key_text("sender_identity_key"@, KeyError::InvalidEd25519Key))
    } else if proto::field_bytes(w.ephemeral_key).len() != 32 {
        Some(invalid_key_text("ephemeral_key"@, KeyError::InvalidX25519Key))
    } else if proto::field_bytes(w.pre_key).len() != 32 {
        Some(invalid_key_text("pre"@, KeyError::InvalidX25519Key))
    } else if w.one_time_key matches Some(k) && k@.len() != 32 {
        Some(invalid_key_text("one_time_key"@, KeyError::InvalidX25519Key))
    } else if w.ciphertext is None {
        Some("request missing ciphertext"@)
    } else {
        None
    }
}

impl x3dh::Message {
    /// Reads an initial message, checking each key.
    pub fn try_from_proto(value: &Message) -> (res: Result<x3dh::Message, Status>)
        ensures
            res is Ok <==> message_error(*value) is None,
            res matches Ok(m) ==> {
                &&& m.sender_ik@ == proto::field_bytes(value.sender_identity_key)
                &&& m.ek@ == proto::field_bytes(value.ephemeral_key)
                &&& m.pre_key@ == proto::field_bytes(value.pre_key)
                &&& x3dh::opt_view(m.opk) == opt_bytes(value.one_time_key)
                &&& m.ciphertext@ == proto::field_bytes(value.ciphertext)
            },
            res matches Err(s) ==> s.code == Code::InvalidArgument && Some(s.message@) == message_error(*value),
    {
        let ik_bytes = proto::field_or_empty(&value.sender_identity_key);
        let sender_ik = match proto::parse_verifying_key(&ik_bytes) {
            Ok(k) => k,
            Err(e) => return Err(invalid_key("sender_identity_key", e)),
        };
        let ek_bytes = proto::field_or_empty(&value.ephemeral_key);
        let ek = match proto::parse_x25519_public_key(&ek_bytes) {
            Ok(k) => k,
            Err(e) => return Err(invalid_key("ephemeral_key", e)),
        };
        let pre_key_bytes = proto::field_or_empty(&value.pre_key);
        let pre_key = match proto::parse_x25519_public_key(&pre_key_bytes) {
            Ok(k) => k,
            Err(e) => return Err(invalid_key("pre", e)),
        };
        let opk = match &value.one_time_key {
            Some(opk) => match proto::parse_x25519_public_key(opk.as_slice()) {
                Ok(k) => Some(k),
                Err(e) => return Err(invalid_key("one_time_key", e)),
            },
            None => None,
        };
        let ciphertext = match &value.ciphertext {
            Some(c) => bytes::to_vec(c.as_slice()),
            None => return Err(Status::new(Code::InvalidArgument, "request missing ciphertext")),
        };
        Ok(x3dh::Message { sender_ik, ek, pre_key, opk, ciphertext })
    }

    /// The wire form of an initial message.
    pub fn to_proto(&self) -> (res: Message)
        ensures
            opt_bytes(res.sender_identity_key) == Some(self.sender_ik@),
            opt_bytes(res.ephemeral_key) == Some(self.ek@),
            opt_bytes(res.pre_key) == Some(self.pre_key@),
            opt_bytes(res.one_time_key) == x3dh::opt_view(self.opk),
            opt_bytes(res.ciphertext) == Some(self.ciphertext@),
            message_error(res) is None,
    {
        let ik = self.sender_ik.to_bytes();
        Message {
            sender_identity_key: Some(bytes::to_vec(&ik)),
            ephemeral_key: Some(bytes::to_vec(&self.ek)),
            pre_key: Some(bytes::to_vec(&self.pre_key)),
            one_time_key: match &self.opk {
                Some(k) => Some(bytes::to_vec(k)),
                None => None,
            },
            ciphertext: Some(bytes::to_vec(self.ciphertext.as_slice())),
        }
    }
}

/// Why a wire prekey bundle cannot be read, if it cannot.
pub open spec fn pre_key_bundle_error(w: PreKeyBundle) -> Option<Seq<char>> {
    if !proto::is_verifying_key(proto::field_bytes(w.identity_key)) {
        Some("PreKeyBundle invalid identity_key"@)
    } else if w.one_time_key matches Some(k) && k@.len() != 32 {
        Some(invalid_key_text("one_time_key"@, KeyError::InvalidX25519Key))
    } else {
        match w.signed_pre_key {
            None => Some("PreKeyBundle missing spk."@),
            Some(spk) => signed_pre_key_error(spk),
        }
    }
}

impl x3dh::PreKeyBundle {
    /// Reads a prekey bundle, checking each key.
    pub fn try_from_proto(value: &PreKeyBundle) -> (res: Result<x3dh::PreKeyBundle, Status>)
        ensures
            res is Ok <==> pre_key_bundle_error(*value) is None,
            res matches Ok(b) ==> {
                &&& b.ik@ == proto::field_bytes(value.identity_key)
                &&& x3dh::opt_view(b.opk) == opt_bytes(value.one_time_key)
                &&& value.signed_pre_key matches Some(spk) && b.spk.pre_key@ == proto::field_bytes(spk.pre_key)
                    && b.spk.signature@ == proto::field_bytes(spk.signature)
            },
            res matches Err(s) ==> s.code == Code::InvalidArgument && Some(s.message@) == pre_key_bundle_error(*value),
    {
        let ik_bytes = proto::field_or_empty(&value.identity_key);
        let ik = match proto::parse_verifying_key(&ik_bytes) {
            Ok(k) => k,
            Err(_) => return Err(Status::new(Code::InvalidArgument, "PreKeyBundle invalid identity_key")),
        };
        let opk = match &value.one_time_key {
            Some(opk) => match proto::parse_x25519_public_key(opk.as_slice()) {
                Ok(k) => Some(k),
                Err(e) => return Err(invalid_key("one_time_key", e)),
            },
            None => None,
        };
        let spk = match &value.signed_pre_key {
            Some(spk) => match x3dh::SignedPreKey::try_from_proto(spk) {
                Ok(k) => k,
                Err(e) => return Err(e),
            },
            None => return Err(Status::new(Code::InvalidArgument, "PreKeyBundle missing spk.")),
        };
        Ok(x3dh::PreKeyBundle { ik, opk, spk })
    }

    /// The wire form of a prekey bundle.
    pub fn to_proto(&self) -> (res: PreKeyBundle)
        ensures
            opt_bytes(res.identity_key) == Some(self.ik@),
            opt_bytes(res.one_time_key) == x3dh::opt_view(self.opk),
            res.signed_pre_key matches Some(spk) && opt_bytes(spk.pre_key) == Some(self.spk.pre_key@)
                && opt_bytes(spk.signature) == Some(self.spk.signature@),
            pre_key_bundle_error(res) is None,
    {
        let ik = self.ik.to_bytes();
        PreKeyBundle {
            identity_key: Some(bytes::to_vec(&ik)),
            one_time_key: match &self.opk {
                Some(k) => Some(bytes::to_vec(k)),
                None => None,
            },
            signed_pre_key: Some(self.spk.to_proto()),
        }
    }
}

} // verus!
