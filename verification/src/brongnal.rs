//! The Brongnal mailbox service: devices register their prekeys, senders fetch
//! a recipient's prekey bundle, and messages wait in the recipient's mailbox
//! until the recipient collects them.
//!
//! Every request is checked before the store is touched: keys must parse and
//! the prekey signatures must verify under the device's identity key. A device
//! is filed under the base64 text of its identity key.
//!
//! Delivery to a recipient that is online and the push notification itself
//! are done by the caller; this controller decides what they are.
use vstd::prelude::*;
use crate::bundle::{self, verify_bundle};
use crate::crypto;
use crate::keys::{VerifyingKey, X25519Public};
use crate::mailbox::{self, SqliteStorage};
use crate::proto::{self, service as wire};
use crate::status::{Code, Status};
use crate::x3dh;

verus! {

/// How long a push-notification token stays usable: two weeks, in seconds.
pub const TOKEN_LIFETIME_SECS: u64 = 1209600;

/// The largest encoded message that a push notification carries.
pub const MAX_PUSH_PAYLOAD: usize = 2048;

/// The name a device is filed under: the base64 text of its identity key.
pub open spec fn device_name(ik: Seq<u8>) -> Seq<char> {
    crypto::base64_standard(ik)
}

/// The views of a list of byte strings.
pub open spec fn byte_views(keys: Seq<Vec<u8>>) -> Seq<Seq<u8>> {
    keys.map_values(|k: Vec<u8>| k@)
}

/// Why a registration is refused before anything is stored, if it is: the
/// status code and text.
pub open spec fn register_error(req: wire::RegisterPreKeyBundleRequest) -> Option<(Code, Seq<char>)> {
    let ik = proto::field_bytes(req.identity_key);
    if !proto::is_verifying_key(ik) {
        Some((Code::InvalidArgument, "request has invalid identity_key"@))
    } else {
        match req.signed_pre_key {
            None => Some((Code::InvalidArgument, "request is missing signed prekey"@)),
            Some(spk) => match wire::signed_pre_key_error(spk) {
                Some(t) => Some((Code::InvalidArgument, t)),
                None => if !bundle::bundle_verifies(
                    ik,
                    seq![proto::field_bytes(spk.pre_key)],
                    proto::field_bytes(spk.signature),
                ) {
                    Some((Code::Unauthenticated, "failed to validate signed prekey signature"@))
                } else {
                    match req.one_time_key_bundle {
                        None => Some((Code::InvalidArgument, "request missing one_time_prekey_bundle"@)),
                        Some(b) => if exists|i: int| 0 <= i < b.pre_keys@.len() && (#[trigger] b.pre_keys@[i])@.len() != 32 {
                            Some((Code::InvalidArgument, "invalid prekey bundle"@))
                        } else if proto::field_bytes(b.signature).len() != 64 {
                            Some((Code::InvalidArgument, "one time prekey bundle signature is invalid"@))
                        } else if !bundle::bundle_verifies(ik, byte_views(b.pre_keys@), proto::field_bytes(b.signature)) {
                            Some((Code::Unauthenticated, "failed to validate one time prekey bundle signature"@))
                        } else {
                            None
                        },
                    }
                },
            },
        }
    }
}

/// Why a request naming a device is refused, if it is.
pub open spec fn device_request_error(identity_key: Option<Vec<u8>>) -> Option<Seq<char>> {
    match identity_key {
        None => Some("missing recipient identity key"@),
        Some(k) => if proto::is_verifying_key(k@) {
            None
        } else {
            Some("invalid recipient identity key"@)
        },
    }
}

/// Why a message to send is refused before it is delivered, if it is.
pub open spec fn send_error(req: wire::SendMessageRequest) -> Option<Seq<char>> {
    match req.message {
        None => Some("request missing message"@),
        Some(m) => match device_request_error(req.recipient_identity_key) {
            Some(t) => Some(t),
            None => wire::message_error(m),
        },
    }
}

/// The token most recently registered for `name` and when, if any.
pub open spec fn latest_token(tokens: Seq<(Seq<char>, Seq<char>, u64)>, name: Seq<char>) -> Option<(Seq<char>, u64)>
    decreases tokens.len(),
{
    if tokens.len() == 0 {
        None
    } else if tokens.last().0 == name {
        Some((tokens.last().1, tokens.last().2))
    } else {
        latest_token(tokens.drop_last(), name)
    }
}

/// The token to notify `name` with at time `now`: the latest one, if it was
/// registered no more than two weeks earlier.
pub open spec fn push_token_at(tokens: Seq<(Seq<char>, Seq<char>, u64)>, name: Seq<char>, now: u64) -> Option<Seq<char>> {
    match latest_token(tokens, name) {
        Some((t, at)) => if at <= now && now - at <= TOKEN_LIFETIME_SECS {
            Some(t)
        } else {
            None
        },
        None => None,
    }
}

/// The token a device registered last is the one used: whatever was
/// registered before, after `name` registers `t` at `a`, its latest token is
/// `t`, and a notification at any `now` from `a` to two weeks after `a` uses
/// `t`. Registrations of other devices change nothing of `name`'s token.
pub proof fn lemma_latest_registration_wins(
    tokens: Seq<(Seq<char>, Seq<char>, u64)>,
    name: Seq<char>,
    t: Seq<char>,
    a: u64,
    now: u64,
    other: (Seq<char>, Seq<char>, u64),
)
    ensures
        latest_token(tokens.push((name, t, a)), name) == Some((t, a)),
        a <= now && now - a <= 1209600 ==> push_token_at(tokens.push((name, t, a)), name, now) == Some(t),
        now < a || now - a > 1209600 ==> push_token_at(tokens.push((name, t, a)), name, now) is None,
        other.0 != name ==> latest_token(tokens.push(other), name) == latest_token(tokens, name),
{
    assert(tokens.push((name, t, a)).drop_last() =~= tokens);
    assert(tokens.push(other).drop_last() =~= tokens);
}

/// The latest token of `name` is the one of `name`'s last registration: there
/// is none exactly when `name` never registered, and otherwise it is the token
/// and time of a registration of `name` after which `name` registered no more.
pub proof fn lemma_latest_token_is_last_registration(tokens: Seq<(Seq<char>, Seq<char>, u64)>, name: Seq<char>)
    ensures
        latest_token(tokens, name) is None <==> forall|i: int| 0 <= i < tokens.len() ==> (#[trigger] tokens[i]).0 != name,
        latest_token(tokens, name) matches Some((t, a)) ==> exists|i: int|
            0 <= i < tokens.len() && #[trigger] tokens[i] == (name, t, a) && forall|j: int|
                i < j < tokens.len() ==> (#[trigger] tokens[j]).0 != name,
    decreases tokens.len(),
{
    if tokens.len() > 0 {
        let d = tokens.drop_last();
        lemma_latest_token_is_last_registration(d, name);
        if tokens.last().0 == name {
            let i = tokens.len() - 1;
            assert(tokens[i] == (name, tokens.last().1, tokens.last().2));
        } else {
            if latest_token(d, name) is None {
                assert forall|i: int| 0 <= i < tokens.len() implies (#[trigger] tokens[i]).0 != name by {
                    if i < d.len() {
                        assert(tokens[i] == d[i]);
                    }
                }
            } else {
                let (t, a) = latest_token(d, name).unwrap();
                let i = choose|i: int|
                    0 <= i < d.len() && #[trigger] d[i] == (name, t, a) && forall|j: int|
                        i < j < d.len() ==> (#[trigger] d[j]).0 != name;
                assert(tokens[i] == d[i]);
                assert forall|j: int| i < j < tokens.len() implies (#[trigger] tokens[j]).0 != name by {
                    if j < d.len() {
                        assert(tokens[j] == d[j]);
                    }
                }
            }
            if exists|i: int| 0 <= i < d.len() && (#[trigger] d[i]).0 == name {
                let j = choose|j: int| 0 <= j < d.len() && (#[trigger] d[j]).0 == name;
                assert(tokens[j] == d[j]);
            }
        }
    }
}

/// What a push notification carries: the encoded message in base64 when it is
/// at most 2048 bytes, and nothing otherwise.
pub open spec fn push_payload(message: Seq<u8>) -> Seq<char> {
    if message.len() <= MAX_PUSH_PAYLOAD {
        crypto::base64_standard(message)
    } else {
        Seq::empty()
    }
}

/// A push notification to send: the device token and the payload.
#[derive(Clone, Debug)]
pub struct Notification {
    pub token: String,
    pub payload: String,
}

/// What sending one message comes to, once the online delivery was tried: the
/// push notification to send first, if any, and then the answer.
#[derive(Debug)]
pub struct SendOutcome {
    pub notify: Option<Notification>,
    pub result: Result<(), Status>,
}

/// The payload of a push notification for an encoded message.
pub fn notification_payload(message: &[u8]) -> (res: String)
    ensures
        res@ == push_payload(message@),
{
    if message.len() <= MAX_PUSH_PAYLOAD {
        crypto::base64_encode(message)
    } else {
        String::new()
    }
}

/// Reads the identity key of a request that names a device.
fn device_key(identity_key: &Option<Vec<u8>>) -> (res: Result<VerifyingKey, Status>)
    ensures
        res is Ok <==> device_request_error(*identity_key) is None,
        res matches Ok(k) ==> identity_key matches Some(b) && k@ == b@,
        res matches Err(s) ==> s.code == Code::InvalidArgument && Some(s.message@) == device_request_error(*identity_key),
{
    match identity_key {
        None => Err(Status::new(Code::InvalidArgument, "missing recipient identity key")),
        Some(bytes) => match proto::parse_verifying_key(bytes.as_slice()) {
            Ok(k) => Ok(k),
            Err(_) => Err(Status::new(Code::InvalidArgument, "invalid recipient identity key")),
        },
    }
}

/// Reads a list of X25519 public keys; `None` if one is not 32 bytes long.
fn parse_pre_keys(keys: &Vec<Vec<u8>>) -> (res: Option<Vec<X25519Public>>)
    ensures
        res is Some <==> forall|i: int| 0 <= i < keys@.len() ==> (#[trigger] keys@[i])@.len() == 32,
        res matches Some(ks) ==> bundle::key_views(ks@) == byte_views(keys@),
{
    let n = keys.len();
    let mut out: Vec<X25519Public> = Vec::new();
    let mut i: usize = 0;
    while i < n
        invariant
            n == keys@.len(),
            i <= n,
            out@.len() == i,
            forall|j: int| 0 <= j < i ==> (#[trigger] keys@[j])@.len() == 32,
            forall|j: int| 0 <= j < i ==> (#[trigger] out@[j])@ == keys@[j]@,
        decreases n - i,
    {
        match proto::parse_x25519_public_key(keys[i].as_slice()) {
            Ok(k) => out.push(k),
            Err(_) => return None,
        }
        i = i + 1;
    }
    assert(bundle::key_views(out@) =~= byte_views(keys@));
    Some(out)
}

/// The mailbox service over its store.
pub struct BrongnalController {
    storage: SqliteStorage,
    fcm_tokens: Vec<(String, String, u64)>,
}

impl BrongnalController {
    /// The store.
    pub closed spec fn store(&self) -> SqliteStorage {
        self.storage
    }

    /// The push-notification tokens, in the order they were registered: the
    /// device's name, the token and when it was registered.
    pub closed spec fn tokens(&self) -> Seq<(Seq<char>, Seq<char>, u64)> {
        self.fcm_tokens@.map_values(|t: (String, String, u64)| (t.0@, t.1@, t.2))
    }

    /// The service's invariant.
    pub open spec fn wf(&self) -> bool {
        self.store().wf()
    }

    /// A service over `storage`, with no push-notification tokens.
    pub fn new(storage: SqliteStorage) -> (res: BrongnalController)
        requires
            storage.wf(),
        ensures
            res.wf(),
            res.store() == storage,
            res.tokens() == Seq::<(Seq<char>, Seq<char>, u64)>::empty(),
    {
        let res = BrongnalController { storage, fcm_tokens: Vec::new() };
        assert(res.tokens() =~= Seq::<(Seq<char>, Seq<char>, u64)>::empty());
        res
    }

    /// Registers a device: its identity key, signed prekey and one-time
    /// prekeys, and, when given, its push-notification token (registered at
    /// `now`). Answers how many one-time prekeys the server now holds for it.
    pub fn register_pre_key_bundle(&mut self, request: wire::RegisterPreKeyBundleRequest, now: u64) -> (res: Result<
        wire::RegisterPreKeyBundleResponse,
        Status,
    >)
        requires
            old(self).wf(),
        ensures
            final(self).wf(),
            match register_error(request) {
                Some((code, text)) => {
                    &&& res matches Err(s) && s.code == code && s.message@ == text
                    &&& final(self).store() == old(self).store()
                    &&& final(self).tokens() == old(self).tokens()
                },
                None => {
                    let ik = proto::field_bytes(request.identity_key);
                    let name = device_name(ik);
                    let spk = request.signed_pre_key.unwrap();
                    let batch = byte_views(request.one_time_key_bundle.unwrap().pre_keys@);
                    let users = old(self).store().users();
                    let p = mailbox::insertable_prefix(mailbox::table_values(old(self).store().opk_rows()), batch);
                    let rows = old(self).store().opk_rows() + mailbox::rows_for(name, batch.take(p as int));
                    &&& final(self).store().message_rows() == old(self).store().message_rows()
                    &&& if users.contains_key(name) && users[name].0 != ik {
                        &&& res matches Err(s) && s.code == Code::AlreadyExists
                        &&& final(self).store().users() == users
                        &&& final(self).store().opk_rows() == old(self).store().opk_rows()
                        &&& final(self).tokens() == old(self).tokens()
                    } else {
                        &&& final(self).store().users() == users.insert(name, (ik, mailbox::spk_view(spk)))
                        &&& final(self).store().opk_rows() == rows
                        &&& (p < batch.len() ==> (res matches Err(s) && s.code == Code::Internal)
                            && final(self).tokens() == old(self).tokens())
                        &&& (p == batch.len() ==> final(self).tokens() == (match request.fcm_token {
                            Some(t) => old(self).tokens().push((name, t@, now)),
                            None => old(self).tokens(),
                        }) && (res is Ok <==> mailbox::rows_of(rows, name).len() <= u32::MAX) && (res matches Ok(
                            r,
                        ) ==> r.num_keys == Some(mailbox::rows_of(rows, name).len() as u32)))
                    }
                },
            },
    {
        let ik_bytes = proto::field_or_empty(&request.identity_key);
        let ik = match proto::parse_verifying_key(&ik_bytes) {
            Ok(k) => k,
            Err(_) => return Err(Status::new(Code::InvalidArgument, "request has invalid identity_key")),
        };
        let spk_proto = match request.signed_pre_key {
            Some(s) => s,
            None => return Err(Status::new(Code::InvalidArgument, "request is missing signed prekey")),
        };
        let spk = match x3dh::SignedPreKey::try_from_proto(&spk_proto) {
            Ok(s) => s,
            Err(e) => return Err(e),
        };
        let spk_keys = [spk.pre_key];
        proof {
            assert(bundle::key_views(spk_keys@) =~= seq![proto::field_bytes(spk_proto.pre_key)]);
        }
        if verify_bundle(&ik, &spk_keys, &spk.signature).is_err() {
            return Err(Status::new(Code::Unauthenticated, "failed to validate signed prekey signature"));
        }
        let opks = match request.one_time_key_bundle {
            Some(b) => b,
            None => return Err(Status::new(Code::InvalidArgument, "request missing one_time_prekey_bundle")),
        };
        let pre_keys = match parse_pre_keys(&opks.pre_keys) {
            Some(ks) => ks,
            None => return Err(Status::new(Code::InvalidArgument, "invalid prekey bundle")),
        };
        let sig_bytes = proto::field_or_empty(&opks.signature);
        if sig_bytes.len() != 64 {
            return Err(Status::new(Code::InvalidArgument, "one time prekey bundle signature is invalid"));
        }
        let mut signature = [0u8; 64];
        let mut i: usize = 0;
        while i < 64
            invariant
                sig_bytes@.len() == 64,
                i <= 64,
                forall|j: int| 0 <= j < i ==> signature@[j] == sig_bytes@[j],
            decreases 64 - i,
        {
            signature[i] = sig_bytes[i];
            i = i + 1;
        }
        assert(signature@ =~= sig_bytes@);
        if verify_bundle(&ik, &pre_keys, &signature).is_err() {
            return Err(Status::new(Code::Unauthenticated, "failed to validate one time prekey bundle signature"));
        }
        let name = crypto::base64_encode(&ik_bytes);
        let ghost batch = byte_views(opks.pre_keys@);
        proof {
            assert(pre_keys@.map_values(|k: X25519Public| k@) =~= batch);
        }
        match self.storage.register_user(name.clone(), ik, spk_proto) {
            Ok(()) => {},
            Err(e) => return Err(e),
        }
        match self.storage.add_opks(name.clone(), pre_keys) {
            Ok(()) => {},
            Err(e) => return Err(e),
        }
        match request.fcm_token {
            Some(token) => {
                let ghost before = self.tokens();
                self.fcm_tokens.push((name.clone(), token, now));
                assert(self.tokens() =~= before.push((name@, token@, now)));
            },
            None => {},
        }
        match self.storage.get_one_time_prekey_count(name) {
            Ok(count) => Ok(wire::RegisterPreKeyBundleResponse { num_keys: Some(count) }),
            Err(e) => Err(e),
        }
    }

    /// A device's prekey bundle: its identity key, signed prekey and, when one
    /// is left, its oldest one-time prekey, which is taken from the store.
    pub fn request_pre_keys(&mut self, request: wire::PreKeyBundleRequest) -> (res: Result<wire::PreKeyBundle, Status>)
        requires
            old(self).wf(),
        ensures
            final(self).wf(),
            final(self).tokens() == old(self).tokens(),
            final(self).store().users() == old(self).store().users(),
            final(self).store().message_rows() == old(self).store().message_rows(),
            match device_request_error(request.identity_key) {
                Some(text) => (res matches Err(s) && s.code == Code::InvalidArgument && s.message@ == text)
                    && final(self).store().opk_rows() == old(self).store().opk_rows(),
                None => {
                    let ik = proto::field_bytes(request.identity_key);
                    let name = device_name(ik);
                    let users = old(self).store().users();
                    &&& res is Ok <==> users.contains_key(name)
                    &&& res is Err ==> final(self).store().opk_rows() == old(self).store().opk_rows()
                    &&& res matches Err(s) ==> s.code == Code::NotFound
                    &&& res matches Ok(b) ==> {
                        &&& wire::opt_bytes(b.identity_key) == Some(ik)
                        &&& b.signed_pre_key matches Some(spk) && mailbox::spk_view(spk) == users[name].1
                        &&& b.one_time_key is None ==> mailbox::rows_of(old(self).store().opk_rows(), name).len() == 0
                            && final(self).store().opk_rows() == old(self).store().opk_rows()
                        &&& b.one_time_key matches Some(k) ==> mailbox::took_oldest(
                            old(self).store().opk_rows(),
                            final(self).store().opk_rows(),
                            name,
                            k@,
                        )
                    }
                },
            },
    {
        let ik = match device_key(&request.identity_key) {
            Ok(k) => k,
            Err(e) => return Err(e),
        };
        let ik_bytes = ik.to_bytes();
        let name = crypto::base64_encode(&ik_bytes);
        let (_, spk) = match self.storage.get_current_keys(name.clone()) {
            Ok(keys) => keys,
            Err(e) => return Err(e),
        };
        let opk = match self.storage.pop_opk(name) {
            Ok(k) => k,
            Err(e) => return Err(e),
        };
        Ok(wire::PreKeyBundle {
            identity_key: Some(crate::bytes::to_vec(&ik_bytes)),
            one_time_key: match opk {
                Some(k) => Some(crate::bytes::to_vec(&k)),
                None => None,
            },
            signed_pre_key: Some(spk),
        })
    }

    /// Checks a message to send: it must name a recipient by a valid identity
    /// key and carry a well-formed initial message. Answers the recipient and
    /// the message.
    pub fn check_send_request(request: wire::SendMessageRequest) -> (res: Result<(VerifyingKey, wire::Message), Status>)
        ensures
            res is Ok <==> send_error(request) is None,
            res matches Err(s) ==> s.code == Code::InvalidArgument && Some(s.message@) == send_error(request),
            res matches Ok((recipient, m)) ==> request.recipient_identity_key matches Some(k) && recipient@ == k@
                && request.message == Some(m),
    {
        let message = match request.message {
            Some(m) => m,
            None => return Err(Status::new(Code::InvalidArgument, "request missing message")),
        };
        let recipient = match device_key(&request.recipient_identity_key) {
            Ok(k) => k,
            Err(e) => return Err(e),
        };
        match x3dh::Message::try_from_proto(&message) {
            Ok(_) => Ok((recipient, message)),
            Err(e) => Err(e),
        }
    }

    /// Queues a message that could not be handed to the recipient online.
    ///
    /// Answers the push notification to send before the answer, when the
    /// recipient registered a token in the last two weeks, and the answer:
    /// the outcome of putting the message in the recipient's mailbox.
    pub fn handle_send_message(&mut self, recipient: &VerifyingKey, message: wire::Message, now: u64) -> (res: SendOutcome)
        requires
            old(self).wf(),
        ensures
            final(self).wf(),
            final(self).tokens() == old(self).tokens(),
            final(self).store().users() == old(self).store().users(),
            final(self).store().opk_rows() == old(self).store().opk_rows(),
            ({
                let name = device_name(recipient@);
                let rows = old(self).store().message_rows();
                &&& match push_token_at(old(self).tokens(), name, now) {
                    Some(t) => res.notify matches Some(n) && n.token@ == t && n.payload@ == push_payload(
                        wire::encode_message(message),
                    ),
                    None => res.notify is None,
                }
                &&& res.result is Ok <==> old(self).store().users().contains_key(name) && !mailbox::table_values(
                    rows,
                ).contains(wire::message_view(message))
                &&& res.result is Ok ==> final(self).store().message_rows() == rows.push(
                    (name, wire::message_view(message)),
                )
                &&& res.result is Err ==> final(self).store().message_rows() == rows
                &&& res.result matches Err(s) ==> s.code == Code::NotFound
            }),
    {
        let ik_bytes = recipient.to_bytes();
        let name = crypto::base64_encode(&ik_bytes);
        let notify = match self.push_token(&name, now) {
            Some(token) => {
                let encoded = message.encode_to_vec();
                Some(Notification { token, payload: notification_payload(&encoded) })
            },
            None => None,
        };
        let result = self.storage.add_message(name, message);
        SendOutcome { notify, result }
    }

    /// The push-notification token of `name` usable at `now`, if any.
    fn push_token(&self, name: &String, now: u64) -> (res: Option<String>)
        ensures
            match push_token_at(self.tokens(), name@, now) {
                Some(t) => res matches Some(r) && r@ == t,
                None => res is None,
            },
    {
        let mut i: usize = self.fcm_tokens.len();
        assert(self.tokens().subrange(0, i as int) =~= self.tokens());
        while i > 0
            invariant
                i <= self.fcm_tokens@.len(),
                latest_token(self.tokens(), name@) == latest_token(self.tokens().subrange(0, i as int), name@),
            decreases i,
        {
            let ghost sub = self.tokens().subrange(0, i as int);
            assert(sub.drop_last() =~= self.tokens().subrange(0, i - 1));
            assert(sub.last() == (self.fcm_tokens@[i - 1].0@, self.fcm_tokens@[i - 1].1@, self.fcm_tokens@[i - 1].2));
            if self.fcm_tokens[i - 1].0 == *name {
                let at = self.fcm_tokens[i - 1].2;
                if at <= now && now - at <= TOKEN_LIFETIME_SECS {
                    return Some(self.fcm_tokens[i - 1].1.clone());
                }
                return None;
            }
            i = i - 1;
        }
        None
    }

    /// Hands a device every message queued for it, oldest first; they leave
    /// the mailbox.
    pub fn retrieve_messages(&mut self, request: wire::RetrieveMessagesRequest) -> (res: Result<Vec<wire::Message>, Status>)
        requires
            old(self).wf(),
        ensures
            final(self).wf(),
            final(self).tokens() == old(self).tokens(),
            final(self).store().users() == old(self).store().users(),
            final(self).store().opk_rows() == old(self).store().opk_rows(),
            match device_request_error(request.identity_key) {
                Some(text) => (res matches Err(s) && s.code == Code::InvalidArgument && s.message@ == text)
                    && final(self).store().message_rows() == old(self).store().message_rows(),
                None => {
                    let name = device_name(proto::field_bytes(request.identity_key));
                    &&& res matches Ok(ms)
                    &&& res matches Ok(ms) ==> ms@.map_values(|m: wire::Message| wire::message_view(m))
                        == mailbox::rows_of(old(self).store().message_rows(), name)
                    &&& final(self).store().message_rows() == mailbox::rows_without(
                        old(self).store().message_rows(),
                        name,
                    )
                },
            },
    {
        let ik = match device_key(&request.identity_key) {
            Ok(k) => k,
            Err(e) => return Err(e),
        };
        let ik_bytes = ik.to_bytes();
        let name = crypto::base64_encode(&ik_bytes);
        self.storage.get_messages(name)
    }
}

} // verus!
