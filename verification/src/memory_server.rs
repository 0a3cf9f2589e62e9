//! An X3DH key server kept in memory, keyed by username.
//!
//! Bob publishes his identity key with a signed prekey, and batches of signed
//! one-time prekeys; a signature that does not verify under the identity key
//! given with it is refused. Alice fetches Bob's prekey bundle, which hands
//! out Bob's most recently published one-time prekey (and removes it), and
//! leaves messages that Bob collects.
use vstd::prelude::*;
use crate::assoc::{self, assoc_map, find_entry, keys_distinct};
use crate::bundle::{self, verify_bundle};
use crate::keys::{VerifyingKey, X25519Public};
use crate::x3dh::{Message, PreKeyBundle, SignedPreKey, SignedPreKeys, X3DHError};
use crate::proto::{self, service as wire};

verus! {

/// Why the key server refused a request.
#[derive(Debug, PartialEq, Eq, Structural, Clone, Copy)]
pub enum BrongnalServerError {
    /// The key agreement failed.
    X3DHError(X3DHError),
    /// A signature did not verify.
    SignatureValidation,
    /// The user is not registered.
    PreconditionError,
    /// No user has the requested identity.
    NotFound,
}

/// The display text of a key server error.
pub open spec fn server_error_text(e: BrongnalServerError) -> Seq<char> {
    match e {
        BrongnalServerError::X3DHError(_) => "Error Running X3DH."@,
        BrongnalServerError::SignatureValidation => "Signature failed to validate."@,
        BrongnalServerError::PreconditionError => "User is not registered."@,
        BrongnalServerError::NotFound => "User not found."@,
    }
}

impl BrongnalServerError {
    /// The display text of this error.
    pub fn text(&self) -> (res: &'static str)
        ensures
            res@ == server_error_text(*self),
    {
        match self {
            BrongnalServerError::X3DHError(_) => "Error Running X3DH.",
            BrongnalServerError::SignatureValidation => "Signature failed to validate.",
            BrongnalServerError::PreconditionError => "User is not registered.",
            BrongnalServerError::NotFound => "User not found.",
        }
    }
}

/// The value held for `id`, or an empty sequence.
pub open spec fn held<T>(m: Map<Seq<char>, Seq<T>>, id: Seq<char>) -> Seq<T> {
    if m.contains_key(id) {
        m[id]
    } else {
        Seq::empty()
    }
}

/// The key server.
pub struct MemoryServer {
    users: Vec<(String, (VerifyingKey, SignedPreKey))>,
    one_time_pre_keys: Vec<(String, Vec<X25519Public>)>,
    messages: Vec<(String, Vec<Message>)>,
}

impl MemoryServer {
    /// The user rows: username, identity key and signed prekey.
    pub closed spec fn user_rows(&self) -> Seq<(Seq<char>, (VerifyingKey, SignedPreKey))> {
        self.users@.map_values(|e: (String, (VerifyingKey, SignedPreKey))| (e.0@, e.1))
    }

    /// The one-time prekey rows.
    pub closed spec fn otk_rows(&self) -> Seq<(Seq<char>, Seq<X25519Public>)> {
        self.one_time_pre_keys@.map_values(|e: (String, Vec<X25519Public>)| (e.0@, e.1@))
    }

    /// The mailbox rows.
    pub closed spec fn mail_rows(&self) -> Seq<(Seq<char>, Seq<Message>)> {
        self.messages@.map_values(|e: (String, Vec<Message>)| (e.0@, e.1@))
    }

    /// Each registered user's identity key and signed prekey.
    pub open spec fn users(&self) -> Map<Seq<char>, (VerifyingKey, SignedPreKey)> {
        assoc_map(self.user_rows())
    }

    /// Each user's unused one-time prekeys, oldest first.
    pub open spec fn otks(&self) -> Map<Seq<char>, Seq<X25519Public>> {
        assoc_map(self.otk_rows())
    }

    /// Each user's waiting messages, oldest first.
    pub open spec fn mailboxes(&self) -> Map<Seq<char>, Seq<Message>> {
        assoc_map(self.mail_rows())
    }

    /// One row per user in each table.
    pub closed spec fn wf(&self) -> bool {
        &&& keys_distinct(self.user_rows())
        &&& keys_distinct(self.otk_rows())
        &&& keys_distinct(self.mail_rows())
    }

    /// An empty server.
    pub fn new() -> (res: MemoryServer)
        ensures
            res.wf(),
            res.users() == Map::<Seq<char>, (VerifyingKey, SignedPreKey)>::empty(),
            res.otks() == Map::<Seq<char>, Seq<X25519Public>>::empty(),
            res.mailboxes() == Map::<Seq<char>, Seq<Message>>::empty(),
    {
        let res = MemoryServer { users: Vec::new(), one_time_pre_keys: Vec::new(), messages: Vec::new() };
        assert(res.user_rows() =~= Seq::<(Seq<char>, (VerifyingKey, SignedPreKey))>::empty());
        assert(res.otk_rows() =~= Seq::<(Seq<char>, Seq<X25519Public>)>::empty());
        assert(res.mail_rows() =~= Seq::<(Seq<char>, Seq<Message>)>::empty());
        res
    }

    /// Registers (or replaces) a user's identity key and signed prekey; the
    /// prekey's signature must verify under the identity key.
    pub fn set_spk(&mut self, identity: String, ik: VerifyingKey, spk: SignedPreKey) -> (res: Result<(), BrongnalServerError>)
        requires
            old(self).wf(),
        ensures
            final(self).wf(),
            final(self).otks() == old(self).otks(),
            final(self).mailboxes() == old(self).mailboxes(),
            res is Ok <==> bundle::bundle_verifies(ik@, seq![spk.pre_key@], spk.signature@),
            res is Ok ==> final(self).users() == old(self).users().insert(identity@, (ik, spk)),
            res matches Err(e) ==> e == BrongnalServerError::SignatureValidation && final(self).users() == old(
                self,
            ).users(),
    {
        let keys = [spk.pre_key];
        assert(bundle::key_views(keys@) =~= seq![spk.pre_key@]);
        if verify_bundle(&ik, &keys, &spk.signature).is_err() {
            return Err(BrongnalServerError::SignatureValidation);
        }
        let ghost before = self.user_rows();
        let ghost id = identity@;
        match find_entry(&self.users, &identity) {
            Some(i) => {
                proof {
                    assert(before[i as int].0 == id);
                    assoc::lemma_assoc_remove(before, i as int);
                }
                self.users.remove(i);
                let ghost mid = self.user_rows();
                proof {
                    assert(mid =~= before.remove(i as int));
                }
                self.users.push((identity, (ik, spk)));
                proof {
                    assert(self.user_rows() =~= mid.push((id, (ik, spk))));
                    assert(self.user_rows().drop_last() =~= mid);
                    assoc::lemma_assoc_push_distinct(mid, (id, (ik, spk)));
                    assert(assoc_map(self.user_rows()) =~= assoc_map(before).insert(id, (ik, spk)));
                }
            },
            None => {
                proof {
                    assert forall|j: int| 0 <= j < before.len() implies (#[trigger] before[j]).0 != id by {
                        assert(before[j].0 == self.users@[j].0@);
                    }
                    assoc::lemma_assoc_absent(before, id);
                    assoc::lemma_assoc_push_distinct(before, (id, (ik, spk)));
                }
                self.users.push((identity, (ik, spk)));
                proof {
                    assert(self.user_rows() =~= before.push((id, (ik, spk))));
                    assert(self.user_rows().drop_last() =~= before);
                }
            },
        }
        Ok(())
    }

    /// Registers a user from a registration request: the identity key and
    /// signed prekey it carries replace the user's, when the prekey's signature
    /// verifies under the identity key, and the user's one-time prekeys are
    /// discarded. The request's one-time prekey batch is not read.
    pub fn register_pre_key_bundle(&mut self, identity: String, request: &wire::RegisterPreKeyBundleRequest) -> (res:
        Result<(), BrongnalServerError>)
        requires
            old(self).wf(),
            proto::is_verifying_key(proto::field_bytes(request.identity_key)),
            request.signed_pre_key matches Some(spk) && wire::signed_pre_key_error(spk) is None,
        ensures
            final(self).wf(),
            final(self).mailboxes() == old(self).mailboxes(),
            ({
                let ik = proto::field_bytes(request.identity_key);
                let spk = request.signed_pre_key.unwrap();
                &&& res is Ok <==> bundle::bundle_verifies(
                    ik,
                    seq![proto::field_bytes(spk.pre_key)],
                    proto::field_bytes(spk.signature),
                )
                &&& res is Ok ==> {
                    &&& final(self).users().contains_key(identity@)
                    &&& final(self).users()[identity@].0@ == ik
                    &&& final(self).users()[identity@].1.pre_key@ == proto::field_bytes(spk.pre_key)
                    &&& final(self).users()[identity@].1.signature@ == proto::field_bytes(spk.signature)
                    &&& final(self).users().remove(identity@) == old(self).users().remove(identity@)
                    &&& final(self).otks() == old(self).otks().insert(identity@, Seq::empty())
                }
                &&& res matches Err(e) ==> e == BrongnalServerError::SignatureValidation && final(self).users() == old(
                    self,
                ).users() && final(self).otks() == old(self).otks()
            }),
    {
        let ik_bytes = proto::field_or_empty(&request.identity_key);
        let ik = match proto::parse_verifying_key(&ik_bytes) {
            Ok(k) => k,
            Err(_) => {
                assert(false);
                return Err(BrongnalServerError::PreconditionError);
            },
        };
        let spk = match &request.signed_pre_key {
            Some(w) => match SignedPreKey::try_from_proto(w) {
                Ok(k) => k,
                Err(_) => {
                    assert(false);
                    return Err(BrongnalServerError::PreconditionError);
                },
            },
            None => {
                assert(false);
                return Err(BrongnalServerError::PreconditionError);
            },
        };
        let ghost before_users = self.users();
        match self.set_spk(identity.clone(), ik, spk) {
            Ok(()) => {},
            Err(e) => return Err(e),
        }
        proof {
            assert(self.users().remove(identity@) =~= before_users.remove(identity@));
        }
        self.clear_otks(&identity);
        Ok(())
    }

    /// Discards a user's one-time prekeys.
    fn clear_otks(&mut self, identity: &String)
        requires
            old(self).wf(),
        ensures
            final(self).wf(),
            final(self).users() == old(self).users(),
            final(self).mailboxes() == old(self).mailboxes(),
            final(self).otks() == old(self).otks().insert(identity@, Seq::empty()),
    {
        let ghost before = self.otk_rows();
        let ghost id = identity@;
        let empty: Vec<X25519Public> = Vec::new();
        let ghost ev = empty@;
        match find_entry(&self.one_time_pre_keys, identity) {
            Some(i) => {
                proof {
                    assert(before[i as int].0 == id);
                    assoc::lemma_assoc_remove(before, i as int);
                }
                self.one_time_pre_keys.remove(i);
                let ghost mid = self.otk_rows();
                proof {
                    assert(mid =~= before.remove(i as int));
                    assoc::lemma_assoc_push_distinct(mid, (id, ev));
                }
                self.one_time_pre_keys.push((identity.clone(), empty));
                proof {
                    assert(self.otk_rows() =~= mid.push((id, ev)));
                    assert(self.otk_rows().drop_last() =~= mid);
                    assert(ev =~= Seq::<X25519Public>::empty());
                    assert(assoc_map(self.otk_rows()) =~= assoc_map(before).insert(id, Seq::empty()));
                }
            },
            None => {
                proof {
                    assert forall|j: int| 0 <= j < before.len() implies (#[trigger] before[j]).0 != id by {
                        assert(before[j].0 == self.one_time_pre_keys@[j].0@);
                    }
                    assoc::lemma_assoc_absent(before, id);
                    assoc::lemma_assoc_push_distinct(before, (id, ev));
                }
                self.one_time_pre_keys.push((identity.clone(), empty));
                proof {
                    assert(self.otk_rows() =~= before.push((id, ev)));
                    assert(self.otk_rows().drop_last() =~= before);
                    assert(ev =~= Seq::<X25519Public>::empty());
                }
            },
        }
    }

    /// Adds a batch of one-time prekeys for a user, after those already held;
    /// the batch's signature must verify under the identity key given with it.
    pub fn publish_otk_bundle(&mut self, identity: String, ik: VerifyingKey, otk_bundle: SignedPreKeys) -> (res: Result<
        (),
        BrongnalServerError,
    >)
        requires
            old(self).wf(),
        ensures
            final(self).wf(),
            final(self).users() == old(self).users(),
            final(self).mailboxes() == old(self).mailboxes(),
            res is Ok <==> bundle::bundle_verifies(ik@, bundle::key_views(otk_bundle.pre_keys@), otk_bundle.signature@),
            res is Ok ==> final(self).otks() == old(self).otks().insert(
                identity@,
                held(old(self).otks(), identity@) + otk_bundle.pre_keys@,
            ),
            res matches Err(e) ==> e == BrongnalServerError::SignatureValidation && final(self).otks() == old(
                self,
            ).otks(),
    {
        if verify_bundle(&ik, otk_bundle.pre_keys.as_slice(), &otk_bundle.signature).is_err() {
            return Err(BrongnalServerError::SignatureValidation);
        }
        let ghost before = self.otk_rows();
        let ghost id = identity@;
        let mut new_keys = otk_bundle.pre_keys;
        match find_entry(&self.one_time_pre_keys, &identity) {
            Some(i) => {
                proof {
                    assert(before[i as int].0 == id);
                    assoc::lemma_assoc_at(before, i as int);
                    assoc::lemma_assoc_remove(before, i as int);
                }
                let (name, mut keys) = self.one_time_pre_keys.remove(i);
                let ghost mid = self.otk_rows();
                let ghost added = new_keys@;
                proof {
                    assert(mid =~= before.remove(i as int));
                }
                keys.append(&mut new_keys);
                let ghost value = keys@;
                self.one_time_pre_keys.push((name, keys));
                proof {
                    assert(value =~= before[i as int].1 + added);
                    assert(self.otk_rows() =~= mid.push((id, value)));
                    assert(self.otk_rows().drop_last() =~= mid);
                    assoc::lemma_assoc_push_distinct(mid, (id, value));
                    assert(assoc_map(self.otk_rows()) =~= assoc_map(before).insert(id, held(assoc_map(before), id) + added));
                }
            },
            None => {
                let ghost added = new_keys@;
                proof {
                    assert forall|j: int| 0 <= j < before.len() implies (#[trigger] before[j]).0 != id by {
                        assert(before[j].0 == self.one_time_pre_keys@[j].0@);
                    }
                    assoc::lemma_assoc_absent(before, id);
                    assoc::lemma_assoc_push_distinct(before, (id, added));
                }
                self.one_time_pre_keys.push((identity, new_keys));
                proof {
                    assert(self.otk_rows() =~= before.push((id, added)));
                    assert(self.otk_rows().drop_last() =~= before);
                    assert(held(assoc_map(before), id) + added =~= added);
                }
            },
        }
        Ok(())
    }

    /// A user's prekey bundle: identity key, signed prekey and, when one is
    /// left, the most recently published one-time prekey, which is removed.
    /// An unknown user is answered `NotFound` and nothing changes.
    pub fn fetch_prekey_bundle(&mut self, recipient_identity: &String) -> (res: Result<PreKeyBundle, BrongnalServerError>)
        requires
            old(self).wf(),
        ensures
            final(self).wf(),
            final(self).users() == old(self).users(),
            final(self).mailboxes() == old(self).mailboxes(),
            res is Ok <==> old(self).users().contains_key(recipient_identity@),
            res matches Err(e) ==> e == BrongnalServerError::NotFound && final(self).otks() == old(self).otks(),
            res matches Ok(b) ==> {
                let id = recipient_identity@;
                let left = held(old(self).otks(), id);
                &&& b.ik == old(self).users()[id].0
                &&& b.spk == old(self).users()[id].1
                &&& if left.len() == 0 {
                    b.opk is None && final(self).otks() == old(self).otks()
                } else {
                    b.opk == Some(left.last()) && final(self).otks() == old(self).otks().insert(id, left.drop_last())
                }
            },
    {
        let ghost id = recipient_identity@;
        let ghost urows = self.user_rows();
        let (ik, spk) = match find_entry(&self.users, recipient_identity) {
            Some(i) => {
                proof {
                    assert(urows[i as int].0 == id);
                    assoc::lemma_assoc_at(urows, i as int);
                }
                self.users[i].1
            },
            None => {
                proof {
                    assert forall|j: int| 0 <= j < urows.len() implies (#[trigger] urows[j]).0 != id by {
                        assert(urows[j].0 == self.users@[j].0@);
                    }
                    assoc::lemma_assoc_absent(urows, id);
                }
                return Err(BrongnalServerError::NotFound);
            },
        };
        let ghost before = self.otk_rows();
        let opk = match find_entry(&self.one_time_pre_keys, recipient_identity) {
            Some(i) => {
                proof {
                    assert(before[i as int].0 == id);
                    assoc::lemma_assoc_at(before, i as int);
                    assoc::lemma_assoc_remove(before, i as int);
                }
                let (name, mut keys) = self.one_time_pre_keys.remove(i);
                let ghost mid = self.otk_rows();
                proof {
                    assert(mid =~= before.remove(i as int));
                }
                let ghost old_keys = keys@;
                let opk = keys.pop();
                let ghost value = keys@;
                self.one_time_pre_keys.push((name, keys));
                proof {
                    assert(self.otk_rows() =~= mid.push((id, value)));
                    assert(self.otk_rows().drop_last() =~= mid);
                    assoc::lemma_assoc_push_distinct(mid, (id, value));
                    if old_keys.len() == 0 {
                        assert(assoc_map(self.otk_rows()) =~= assoc_map(before));
                    } else {
                        assert(value =~= old_keys.drop_last());
                        assert(assoc_map(self.otk_rows()) =~= assoc_map(before).insert(id, old_keys.drop_last()));
                    }
                }
                opk
            },
            None => {
                proof {
                    assert forall|j: int| 0 <= j < before.len() implies (#[trigger] before[j]).0 != id by {
                        assert(before[j].0 == self.one_time_pre_keys@[j].0@);
                    }
                    assoc::lemma_assoc_absent(before, id);
                }
                None
            },
        };
        Ok(PreKeyBundle { ik, opk, spk })
    }

    /// Leaves a message for a user.
    pub fn send_message(&mut self, recipient_identity: &String, message: Message) -> (res: Result<(), BrongnalServerError>)
        requires
            old(self).wf(),
        ensures
            final(self).wf(),
            final(self).users() == old(self).users(),
            final(self).otks() == old(self).otks(),
            res is Ok,
            final(self).mailboxes() == old(self).mailboxes().insert(
                recipient_identity@,
                held(old(self).mailboxes(), recipient_identity@).push(message),
            ),
    {
        let ghost before = self.mail_rows();
        let ghost id = recipient_identity@;
        let ghost m = message;
        match find_entry(&self.messages, recipient_identity) {
            Some(i) => {
                proof {
                    assert(before[i as int].0 == id);
                    assoc::lemma_assoc_at(before, i as int);
                    assoc::lemma_assoc_remove(before, i as int);
                }
                let (name, mut queue) = self.messages.remove(i);
                let ghost mid = self.mail_rows();
                proof {
                    assert(mid =~= before.remove(i as int));
                }
                queue.push(message);
                let ghost value = queue@;
                self.messages.push((name, queue));
                proof {
                    assert(self.mail_rows() =~= mid.push((id, value)));
                    assert(self.mail_rows().drop_last() =~= mid);
                    assoc::lemma_assoc_push_distinct(mid, (id, value));
                    assert(assoc_map(self.mail_rows()) =~= assoc_map(before).insert(id, held(assoc_map(before), id).push(m)));
                }
            },
            None => {
                let mut queue: Vec<Message> = Vec::new();
                queue.push(message);
                proof {
                    assert forall|j: int| 0 <= j < before.len() implies (#[trigger] before[j]).0 != id by {
                        assert(before[j].0 == self.messages@[j].0@);
                    }
                    assoc::lemma_assoc_absent(before, id);
                    assoc::lemma_assoc_push_distinct(before, (id, seq![m]));
                }
                self.messages.push((recipient_identity.clone(), queue));
                proof {
                    assert(self.mail_rows() =~= before.push((id, seq![m])));
                    assert(self.mail_rows().drop_last() =~= before);
                    assert(held(assoc_map(before), id).push(m) =~= seq![m]);
                }
            },
        }
        Ok(())
    }

    /// Hands a user every waiting message, oldest first, and empties the mailbox.
    pub fn retrieve_messages(&mut self, identity: &String) -> (res: Vec<Message>)
        requires
            old(self).wf(),
        ensures
            final(self).wf(),
            final(self).users() == old(self).users(),
            final(self).otks() == old(self).otks(),
            res@ == held(old(self).mailboxes(), identity@),
            final(self).mailboxes() == old(self).mailboxes().remove(identity@),
    {
        let ghost before = self.mail_rows();
        let ghost id = identity@;
        match find_entry(&self.messages, identity) {
            Some(i) => {
                proof {
                    assert(before[i as int].0 == id);
                    assoc::lemma_assoc_at(before, i as int);
                    assoc::lemma_assoc_remove(before, i as int);
                }
                let (_, queue) = self.messages.remove(i);
                proof {
                    assert(self.mail_rows() =~= before.remove(i as int));
                }
                queue
            },
            None => {
                proof {
                    assert forall|j: int| 0 <= j < before.len() implies (#[trigger] before[j]).0 != id by {
                        assert(before[j].0 == self.messages@[j].0@);
                    }
                    assoc::lemma_assoc_absent(before, id);
                    assert(assoc_map(before).remove(id) =~= assoc_map(before));
                }
                Vec::new()
            },
        }
    }
}

} // verus!
