//! A stand-in for the Gossamer and Brongnal services that the app runs against
//! in development: it records who claimed which provider, answers fixed
//! prekey bundles and attestation, and passes messages through mailboxes.
use vstd::prelude::*;
use crate::assoc::{self, assoc_map, keys_distinct};
use crate::gossamer_service::{ActionRequest, ActionResponse};
use crate::proto::gossamer as gwire;
use crate::proto::service as wire;
use crate::status::{Code, Status};

verus! {

/// A ledger entry by value: its provider and keys.
pub type UserView = (Option<Seq<u8>>, Seq<Seq<u8>>);

/// The value of a ledger entry.
pub open spec fn user_view(u: gwire::User) -> UserView {
    (wire::opt_bytes(u.provider), u.public_keys@.map_values(|k: Vec<u8>| k@))
}

/// Why an action is refused, if it is: the code and, for a missing field, the text.
pub open spec fn mock_action_error(req: ActionRequest) -> Option<(Code, Option<Seq<char>>)> {
    match req.message {
        None => Some((Code::InvalidArgument, Some("missing message"@))),
        Some(sm) => match sm.contents {
            None => Some((Code::InvalidArgument, Some("missing contents"@))),
            Some(c) => match gwire::decode_fields(c@) {
                None => Some((Code::Internal, None)),
                Some(f) => match (f.1, f.0) {
                    (None, _) => Some((Code::InvalidArgument, Some("missing public_key in message"@))),
                    (Some(_), None) => Some((Code::InvalidArgument, Some("missing provider"@))),
                    (Some(_), Some(_)) => None,
                },
            },
        },
    }
}

/// The stand-in services' state.
pub struct MockBackend {
    users: Vec<(Vec<u8>, gwire::User)>,
    messages: Vec<(Vec<u8>, Vec<wire::Message>)>,
}

impl MockBackend {
    /// The ledger entries by provider, in the order they were claimed.
    pub closed spec fn user_rows(&self) -> Seq<(Seq<u8>, UserView)> {
        self.users@.map_values(|e: (Vec<u8>, gwire::User)| (e.0@, user_view(e.1)))
    }

    /// The ledger entry of each claimed provider.
    pub open spec fn users(&self) -> Map<Seq<u8>, UserView> {
        assoc_map(self.user_rows())
    }

    /// The mailbox rows: each recipient and its queued messages.
    pub closed spec fn mail_rows(&self) -> Seq<(Seq<u8>, Seq<wire::Message>)> {
        self.messages@.map_values(|e: (Vec<u8>, Vec<wire::Message>)| (e.0@, e.1@))
    }

    /// The queued messages of each recipient, oldest first.
    pub open spec fn mailboxes(&self) -> Map<Seq<u8>, Seq<wire::Message>> {
        assoc_map(self.mail_rows())
    }

    /// The state's invariant: one ledger entry per provider, one mailbox per recipient.
    pub closed spec fn wf(&self) -> bool {
        &&& keys_distinct(self.user_rows())
        &&& keys_distinct(self.mail_rows())
    }

    /// No claims and no messages.
    pub fn new() -> (res: MockBackend)
        ensures
            res.wf(),
            res.users() == Map::<Seq<u8>, UserView>::empty(),
            res.mailboxes() == Map::<Seq<u8>, Seq<wire::Message>>::empty(),
    {
        let res = MockBackend { users: Vec::new(), messages: Vec::new() };
        assert(res.user_rows() =~= Seq::<(Seq<u8>, UserView)>::empty());
        assert(res.mail_rows() =~= Seq::<(Seq<u8>, Seq<wire::Message>)>::empty());
        res
    }

    /// Records a claim: the first key that claims a provider keeps it; the
    /// signature is not checked.
    pub fn action(&mut self, request: ActionRequest) -> (res: Result<ActionResponse, Status>)
        requires
            old(self).wf(),
        ensures
            final(self).wf(),
            final(self).mailboxes() == old(self).mailboxes(),
            match mock_action_error(request) {
                Some((code, text)) => (res matches Err(s) && s.code == code && (text matches Some(t) ==> s.message@
                    == t)) && final(self).users() == old(self).users(),
                None => {
                    let f = gwire::decode_fields(request.message.unwrap().contents.unwrap()@).unwrap();
                    let p = f.0.unwrap();
                    let k = f.1.unwrap();
                    &&& res is Ok
                    &&& final(self).users() == (if old(self).users().contains_key(p) {
                        old(self).users()
                    } else {
                        old(self).users().insert(p, (Some(p), seq![k]))
                    })
                },
            },
    {
        let signed = match request.message {
            Some(m) => m,
            None => return Err(Status::new(Code::InvalidArgument, "missing message")),
        };
        let contents = match &signed.contents {
            Some(c) => c,
            None => return Err(Status::new(Code::InvalidArgument, "missing contents")),
        };
        let decoded = match gwire::Message::decode(contents.as_slice()) {
            Some(m) => m,
            None => return Err(Status::new(Code::Internal, "failed to decode Protobuf message")),
        };
        let ik = match decoded.public_key {
            Some(k) => k,
            None => return Err(Status::new(Code::InvalidArgument, "missing public_key in message")),
        };
        let provider = match decoded.provider {
            Some(p) => p,
            None => return Err(Status::new(Code::InvalidArgument, "missing provider")),
        };
        if self.find_user(provider.as_slice()).is_none() {
            let ghost before = self.user_rows();
            let mut public_keys: Vec<Vec<u8>> = Vec::new();
            public_keys.push(ik);
            let user = gwire::User { provider: Some(crate::bytes::to_vec(provider.as_slice())), public_keys };
            let ghost uv = user_view(user);
            proof {
                assert(uv.1 =~= seq![ik@]);
            }
            self.users.push((provider, user));
            proof {
                assert(self.user_rows() =~= before.push((provider@, uv)));
                assoc::lemma_assoc_push_distinct(before, (provider@, uv));
                assert(self.user_rows().drop_last() =~= before);
            }
        }
        Ok(ActionResponse {})
    }

    /// The position of `provider`'s ledger entry.
    fn find_user(&self, provider: &[u8]) -> (res: Option<usize>)
        requires
            self.wf(),
        ensures
            res matches Some(i) ==> i < self.users@.len() && self.user_rows()[i as int].0 == provider@,
            res is Some <==> self.users().contains_key(provider@),
    {
        let n = self.users.len();
        let mut i: usize = 0;
        while i < n
            invariant
                self.wf(),
                n == self.users@.len(),
                i <= n,
                forall|j: int| 0 <= j < i ==> (#[trigger] self.user_rows()[j]).0 != provider@,
            decreases n - i,
        {
            assert(self.user_rows()[i as int].0 == self.users@[i as int].0@);
            if crate::bytes::bytes_eq(self.users[i].0.as_slice(), provider) {
                proof {
                    assoc::lemma_assoc_at(self.user_rows(), i as int);
                }
                return Some(i);
            }
            i = i + 1;
        }
        proof {
            assoc::lemma_assoc_absent(self.user_rows(), provider@);
        }
        None
    }

    /// The ledger: every claimed provider's entry, in the order of the claims.
    pub fn get_ledger(&self) -> (res: gwire::Ledger)
        ensures
            res.users@.map_values(|u: gwire::User| user_view(u)) == self.user_rows().map_values(
                |e: (Seq<u8>, UserView)| e.1,
            ),
    {
        let n = self.users.len();
        let mut users: Vec<gwire::User> = Vec::new();
        let mut i: usize = 0;
        while i < n
            invariant
                n == self.users@.len(),
                i <= n,
                users@.len() == i,
                forall|j: int| 0 <= j < i ==> user_view(#[trigger] users@[j]) == user_view(self.users@[j].1),
            decreases n - i,
        {
            users.push(copy_user(&self.users[i].1));
            i = i + 1;
        }
        assert(users@.map_values(|u: gwire::User| user_view(u)) =~= self.user_rows().map_values(
            |e: (Seq<u8>, UserView)| e.1,
        ));
        gwire::Ledger { users }
    }

    /// A fixed attestation: a mock token and no image digest.
    pub fn get_attestation(&self) -> (res: gwire::AttestationResponse)
        ensures
            res.container_image_digest is None,
            res.gca_token matches Some(t) && t@ == "mock.jwt.token"@,
    {
        gwire::AttestationResponse { container_image_digest: None, gca_token: Some("mock.jwt.token".to_owned()) }
    }

    /// Accepts any registration and reports a hundred one-time prekeys.
    pub fn register_pre_key_bundle(&self, _request: wire::RegisterPreKeyBundleRequest) -> (res: Result<
        wire::RegisterPreKeyBundleResponse,
        Status,
    >)
        ensures
            res matches Ok(r) && r.num_keys == Some(100u32),
    {
        Ok(wire::RegisterPreKeyBundleResponse { num_keys: Some(100) })
    }

    /// A fixed prekey bundle for the requested identity key.
    pub fn request_pre_keys(&self, request: wire::PreKeyBundleRequest) -> (res: Result<wire::PreKeyBundle, Status>)
        ensures
            request.identity_key is None ==> (res matches Err(s) && s.code == Code::InvalidArgument && s.message@
                == "missing identity key"@),
            request.identity_key matches Some(ik) ==> (res matches Ok(b) && wire::opt_bytes(b.identity_key) == Some(
                ik@,
            ) && (b.signed_pre_key matches Some(spk) && wire::opt_bytes(spk.pre_key) == Some(Seq::new(32, |i: int| 0u8))
                && wire::opt_bytes(spk.signature) == Some(Seq::new(64, |i: int| 1u8))) && wire::opt_bytes(
                b.one_time_key,
            ) == Some(Seq::new(32, |i: int| 2u8))),
    {
        let ik = match request.identity_key {
            Some(k) => k,
            None => return Err(Status::new(Code::InvalidArgument, "missing identity key")),
        };
        Ok(wire::PreKeyBundle {
            identity_key: Some(ik),
            signed_pre_key: Some(wire::SignedPreKey { pre_key: Some(filled(0, 32)), signature: Some(filled(1, 64)) }),
            one_time_key: Some(filled(2, 32)),
        })
    }

    /// Puts one message in its recipient's mailbox.
    pub fn send_message(&mut self, request: wire::SendMessageRequest) -> (res: Result<wire::SendMessageResponse, Status>)
        requires
            old(self).wf(),
        ensures
            final(self).wf(),
            final(self).users() == old(self).users(),
            match (request.recipient_identity_key, request.message) {
                (None, _) => (res matches Err(s) && s.code == Code::InvalidArgument && s.message@ == "missing recipient"@)
                    && final(self).mailboxes() == old(self).mailboxes(),
                (Some(_), None) => (res matches Err(s) && s.code == Code::InvalidArgument && s.message@
                    == "missing message"@) && final(self).mailboxes() == old(self).mailboxes(),
                (Some(r), Some(m)) => res is Ok && final(self).mailboxes() == old(self).mailboxes().insert(
                    r@,
                    (if old(self).mailboxes().contains_key(r@) {
                        old(self).mailboxes()[r@]
                    } else {
                        Seq::empty()
                    }).push(m),
                ),
            },
    {
        let recipient = match request.recipient_identity_key {
            Some(r) => r,
            None => return Err(Status::new(Code::InvalidArgument, "missing recipient")),
        };
        let message = match request.message {
            Some(m) => m,
            None => return Err(Status::new(Code::InvalidArgument, "missing message")),
        };
        let ghost before = self.mail_rows();
        let ghost r = recipient@;
        let ghost m = message;
        match self.find_mailbox(recipient.as_slice()) {
            Some(i) => {
                proof {
                    assoc::lemma_assoc_at(before, i as int);
                    assoc::lemma_assoc_remove(before, i as int);
                }
                let (key, mut queue) = self.messages.remove(i);
                let ghost mid = self.mail_rows();
                proof {
                    assert(mid =~= before.remove(i as int));
                }
                queue.push(message);
                self.messages.push((key, queue));
                proof {
                    assert(self.mail_rows() =~= mid.push((r, before[i as int].1.push(m))));
                    assert(self.mail_rows().drop_last() =~= mid);
                    assert(!assoc_map(mid).contains_key(r));
                    assoc::lemma_assoc_push_distinct(mid, (r, before[i as int].1.push(m)));
                    assert(self.mailboxes() =~= assoc_map(before).insert(r, assoc_map(before)[r].push(m)));
                }
            },
            None => {
                let mut queue: Vec<wire::Message> = Vec::new();
                queue.push(message);
                self.messages.push((recipient, queue));
                proof {
                    assert(self.mail_rows() =~= before.push((r, seq![m])));
                    assert(self.mail_rows().drop_last() =~= before);
                    assoc::lemma_assoc_push_distinct(before, (r, seq![m]));
                    assert(seq![m] =~= Seq::<wire::Message>::empty().push(m));
                }
            },
        }
        Ok(wire::SendMessageResponse {})
    }

    /// The position of `recipient`'s mailbox.
    fn find_mailbox(&self, recipient: &[u8]) -> (res: Option<usize>)
        requires
            self.wf(),
        ensures
            res matches Some(i) ==> i < self.messages@.len() && self.mail_rows()[i as int].0 == recipient@,
            res is Some <==> self.mailboxes().contains_key(recipient@),
    {
        let n = self.messages.len();
        let mut i: usize = 0;
        while i < n
            invariant
                self.wf(),
                n == self.messages@.len(),
                i <= n,
                forall|j: int| 0 <= j < i ==> (#[trigger] self.mail_rows()[j]).0 != recipient@,
            decreases n - i,
        {
            assert(self.mail_rows()[i as int].0 == self.messages@[i as int].0@);
            if crate::bytes::bytes_eq(self.messages[i].0.as_slice(), recipient) {
                proof {
                    assoc::lemma_assoc_at(self.mail_rows(), i as int);
                }
                return Some(i);
            }
            i = i + 1;
        }
        proof {
            assoc::lemma_assoc_absent(self.mail_rows(), recipient@);
        }
        None
    }

    /// Checks a request to retrieve messages: it must name an identity key.
    pub fn retrieve_messages(&self, request: wire::RetrieveMessagesRequest) -> (res: Result<Vec<u8>, Status>)
        ensures
            request.identity_key is None ==> (res matches Err(s) && s.code == Code::InvalidArgument && s.message@
                == "missing identity key"@),
            request.identity_key matches Some(k) ==> (res matches Ok(r) && r@ == k@),
    {
        match request.identity_key {
            Some(k) => Ok(k),
            None => Err(Status::new(Code::InvalidArgument, "missing identity key")),
        }
    }

    /// Takes every message queued for `identity_key`, oldest first; its
    /// mailbox is emptied.
    pub fn take_messages(&mut self, identity_key: &[u8]) -> (res: Vec<wire::Message>)
        requires
            old(self).wf(),
        ensures
            final(self).wf(),
            final(self).users() == old(self).users(),
            res@ == (if old(self).mailboxes().contains_key(identity_key@) {
                old(self).mailboxes()[identity_key@]
            } else {
                Seq::empty()
            }),
            final(self).mailboxes() == old(self).mailboxes().remove(identity_key@),
    {
        let ghost before = self.mail_rows();
        match self.find_mailbox(identity_key) {
            Some(i) => {
                proof {
                    assoc::lemma_assoc_at(before, i as int);
                    assoc::lemma_assoc_remove(before, i as int);
                }
                let (_, queue) = self.messages.remove(i);
                proof {
                    assert(self.mail_rows() =~= before.remove(i as int));
                }
                queue
            },
            None => {
                proof {
                    assert(assoc_map(before).remove(identity_key@) =~= assoc_map(before));
                }
                Vec::new()
            },
        }
    }
}

/// `n` copies of `b`.
fn filled(b: u8, n: usize) -> (res: Vec<u8>)
    ensures
        res@ == Seq::new(n as nat, |i: int| b),
{
    let mut v: Vec<u8> = Vec::new();
    let mut i: usize = 0;
    while i < n
        invariant
            i <= n,
            v@ == Seq::new(i as nat, |j: int| b),
        decreases n - i,
    {
        v.push(b);
        i = i + 1;
        assert(v@ =~= Seq::new(i as nat, |j: int| b));
    }
    v
}

/// Copies a ledger entry.
fn copy_user(u: &gwire::User) -> (res: gwire::User)
    ensures
        user_view(res) == user_view(*u),
{
    let provider = match &u.provider {
        Some(p) => Some(crate::bytes::to_vec(p.as_slice())),
        None => None,
    };
    let n = u.public_keys.len();
    let mut keys: Vec<Vec<u8>> = Vec::new();
    let mut i: usize = 0;
    while i < n
        invariant
            n == u.public_keys@.len(),
            i <= n,
            keys@.len() == i,
            forall|j: int| 0 <= j < i ==> (#[trigger] keys@[j])@ == u.public_keys@[j]@,
        decreases n - i,
    {
        keys.push(crate::bytes::to_vec(u.public_keys[i].as_slice()));
        i = i + 1;
    }
    let res = gwire::User { provider, public_keys: keys };
    assert(user_view(res).1 =~= user_view(*u).1);
    res
}

} // verus!
