//! The mailbox server's store kept in memory, keyed by username.
//!
//! Unlike the relational store, registering a username again replaces its
//! keys (whatever the identity key) and discards its one-time prekeys, one-time prekeys are handed out
//! newest first, and a message to an unknown user still gets a mailbox.
use vstd::prelude::*;
use crate::assoc::{self, assoc_map, find_entry, keys_distinct};
use crate::keys::{VerifyingKey, X25519Public};
use crate::mailbox::{spk_view, SpkView};
use crate::memory_server::held;
use crate::proto::service as wire;
use crate::status::{Code, Status};

verus! {

/// Copies a wire signed prekey.
fn copy_spk(s: &wire::SignedPreKey) -> (res: wire::SignedPreKey)
    ensures
        spk_view(res) == spk_view(*s),
{
    wire::SignedPreKey {
        pre_key: match &s.pre_key {
            Some(v) => Some(crate::bytes::to_vec(v.as_slice())),
            None => None,
        },
        signature: match &s.signature {
            Some(v) => Some(crate::bytes::to_vec(v.as_slice())),
            None => None,
        },
    }
}

/// The in-memory store.
pub struct MemoryStorage {
    users: Vec<(String, (VerifyingKey, wire::SignedPreKey))>,
    opks: Vec<(String, Vec<X25519Public>)>,
    messages: Vec<(String, Vec<wire::Message>)>,
}

impl MemoryStorage {
    /// The user rows: username, identity key and signed prekey.
    pub closed spec fn user_rows(&self) -> Seq<(Seq<char>, (Seq<u8>, SpkView))> {
        self.users@.map_values(|e: (String, (VerifyingKey, wire::SignedPreKey))| (e.0@, (e.1.0@, spk_view(e.1.1))))
    }

    /// The one-time prekey rows.
    pub closed spec fn opk_rows(&self) -> Seq<(Seq<char>, Seq<X25519Public>)> {
        self.opks@.map_values(|e: (String, Vec<X25519Public>)| (e.0@, e.1@))
    }

    /// The mailbox rows.
    pub closed spec fn mail_rows(&self) -> Seq<(Seq<char>, Seq<wire::Message>)> {
        self.messages@.map_values(|e: (String, Vec<wire::Message>)| (e.0@, e.1@))
    }

    /// Each user's identity key and signed prekey.
    pub open spec fn users(&self) -> Map<Seq<char>, (Seq<u8>, SpkView)> {
        assoc_map(self.user_rows())
    }

    /// Each user's one-time prekeys, oldest first.
    pub open spec fn opks(&self) -> Map<Seq<char>, Seq<X25519Public>> {
        assoc_map(self.opk_rows())
    }

    /// Each user's queued messages, oldest first.
    pub open spec fn mailboxes(&self) -> Map<Seq<char>, Seq<wire::Message>> {
        assoc_map(self.mail_rows())
    }

    /// One row per user in each table.
    pub closed spec fn wf(&self) -> bool {
        &&& keys_distinct(self.user_rows())
        &&& keys_distinct(self.opk_rows())
        &&& keys_distinct(self.mail_rows())
    }

    /// An empty store.
    pub fn new() -> (res: MemoryStorage)
        ensures
            res.wf(),
            res.users() == Map::<Seq<char>, (Seq<u8>, SpkView)>::empty(),
            res.opks() == Map::<Seq<char>, Seq<X25519Public>>::empty(),
            res.mailboxes() == Map::<Seq<char>, Seq<wire::Message>>::empty(),
    {
        let res = MemoryStorage { users: Vec::new(), opks: Vec::new(), messages: Vec::new() };
        assert(res.user_rows() =~= Seq::<(Seq<char>, (Seq<u8>, SpkView))>::empty());
        assert(res.opk_rows() =~= Seq::<(Seq<char>, Seq<X25519Public>)>::empty());
        assert(res.mail_rows() =~= Seq::<(Seq<char>, Seq<wire::Message>)>::empty());
        res
    }

    /// Registers a user, replacing its keys and discarding its one-time prekeys.
    pub fn register_user(&mut self, identity: String, ik: VerifyingKey, spk: wire::SignedPreKey) -> (res: Result<(), Status>)
        requires
            old(self).wf(),
        ensures
            final(self).wf(),
            res is Ok,
            final(self).users() == old(self).users().insert(identity@, (ik@, spk_view(spk))),
            final(self).opks() == old(self).opks().insert(identity@, Seq::empty()),
            final(self).mailboxes() == old(self).mailboxes(),
    {
        let ghost id = identity@;
        let ghost uv = (ik@, spk_view(spk));
        let ghost ubefore = self.user_rows();
        match find_entry(&self.users, &identity) {
            Some(i) => {
                proof {
                    assert(ubefore[i as int].0 == id);
                    assoc::lemma_assoc_remove(ubefore, i as int);
                }
                self.users.remove(i);
                let ghost mid = self.user_rows();
                proof {
                    assert(mid =~= ubefore.remove(i as int));
                    assoc::lemma_assoc_push_distinct(mid, (id, uv));
                }
                self.users.push((identity.clone(), (ik, spk)));
                proof {
                    assert(self.user_rows() =~= mid.push((id, uv)));
                    assert(self.user_rows().drop_last() =~= mid);
                    assert(assoc_map(self.user_rows()) =~= assoc_map(ubefore).insert(id, uv));
                }
            },
            None => {
                proof {
                    assert forall|j: int| 0 <= j < ubefore.len() implies (#[trigger] ubefore[j]).0 != id by {
                        assert(ubefore[j].0 == self.users@[j].0@);
                    }
                    assoc::lemma_assoc_absent(ubefore, id);
                    assoc::lemma_assoc_push_distinct(ubefore, (id, uv));
                }
                self.users.push((identity.clone(), (ik, spk)));
                proof {
                    assert(self.user_rows() =~= ubefore.push((id, uv)));
                    assert(self.user_rows().drop_last() =~= ubefore);
                }
            },
        }
        let ghost obefore = self.opk_rows();
        let empty: Vec<X25519Public> = Vec::new();
        let ghost ev = empty@;
        match find_entry(&self.opks, &identity) {
            Some(i) => {
                proof {
                    assert(obefore[i as int].0 == id);
                    assoc::lemma_assoc_remove(obefore, i as int);
                }
                self.opks.remove(i);
                let ghost mid = self.opk_rows();
                proof {
                    assert(mid =~= obefore.remove(i as int));
                    assoc::lemma_assoc_push_distinct(mid, (id, ev));
                }
                self.opks.push((identity, empty));
                proof {
                    assert(self.opk_rows() =~= mid.push((id, ev)));
                    assert(self.opk_rows().drop_last() =~= mid);
                    assert(assoc_map(self.opk_rows()) =~= assoc_map(obefore).insert(id, Seq::empty()));
                }
            },
            None => {
                proof {
                    assert forall|j: int| 0 <= j < obefore.len() implies (#[trigger] obefore[j]).0 != id by {
                        assert(obefore[j].0 == self.opks@[j].0@);
                    }
                    assoc::lemma_assoc_absent(obefore, id);
                    assoc::lemma_assoc_push_distinct(obefore, (id, ev));
                }
                self.opks.push((identity, empty));
                proof {
                    assert(self.opk_rows() =~= obefore.push((id, ev)));
                    assert(self.opk_rows().drop_last() =~= obefore);
                    assert(ev =~= Seq::<X25519Public>::empty());
                }
            },
        }
        Ok(())
    }

    /// Replaces the signed prekey of a registered user, keeping its identity
    /// key; an unknown user is refused as `NotFound` and nothing changes.
    pub fn update_spk(&mut self, identity: &str, pre_key: wire::SignedPreKey) -> (res: Result<(), Status>)
        requires
            old(self).wf(),
        ensures
            final(self).wf(),
            res is Ok <==> old(self).users().contains_key(identity@),
            res is Ok ==> final(self).users() == old(self).users().insert(
                identity@,
                (old(self).users()[identity@].0, spk_view(pre_key)),
            ),
            res matches Err(s) ==> s.code == Code::NotFound && s.message@ == "User not found."@ && final(self).users()
                == old(self).users(),
            final(self).opks() == old(self).opks(),
            final(self).mailboxes() == old(self).mailboxes(),
    {
        let name = identity.to_owned();
        let ghost id = name@;
        let ghost before = self.user_rows();
        match find_entry(&self.users, &name) {
            Some(i) => {
                proof {
                    assert(before[i as int].0 == id);
                    assoc::lemma_assoc_at(before, i as int);
                    assoc::lemma_assoc_remove(before, i as int);
                }
                let (stored, (ik, _old_spk)) = self.users.remove(i);
                let ghost kv = ik@;
                let ghost uv = (kv, spk_view(pre_key));
                let ghost mid = self.user_rows();
                proof {
                    assert(mid =~= before.remove(i as int));
                    assoc::lemma_assoc_push_distinct(mid, (id, uv));
                }
                self.users.push((stored, (ik, pre_key)));
                proof {
                    assert(self.user_rows() =~= mid.push((id, uv)));
                    assert(self.user_rows().drop_last() =~= mid);
                    assert(assoc_map(self.user_rows()) =~= assoc_map(before).insert(id, uv));
                }
                Ok(())
            },
            None => {
                proof {
                    assert forall|j: int| 0 <= j < before.len() implies (#[trigger] before[j]).0 != id by {
                        assert(before[j].0 == self.users@[j].0@);
                    }
                    assoc::lemma_assoc_absent(before, id);
                }
                Err(Status::new(Code::NotFound, "User not found."))
            },
        }
    }

    /// Appends one-time prekeys for a registered user.
    pub fn add_opks(&mut self, identity: &String, pre_keys: Vec<X25519Public>) -> (res: Result<(), Status>)
        requires
            old(self).wf(),
        ensures
            final(self).wf(),
            final(self).users() == old(self).users(),
            final(self).mailboxes() == old(self).mailboxes(),
            res is Ok <==> old(self).opks().contains_key(identity@),
            res is Ok ==> final(self).opks() == old(self).opks().insert(
                identity@,
                old(self).opks()[identity@] + pre_keys@,
            ),
            res matches Err(s) ==> s.code == Code::NotFound && s.message@ == "User not found."@ && final(self).opks()
                == old(self).opks(),
    {
        let ghost before = self.opk_rows();
        let ghost id = identity@;
        match find_entry(&self.opks, identity) {
            Some(i) => {
                proof {
                    assert(before[i as int].0 == id);
                    assoc::lemma_assoc_at(before, i as int);
                    assoc::lemma_assoc_remove(before, i as int);
                }
                let (name, mut keys) = self.opks.remove(i);
                let ghost mid = self.opk_rows();
                proof {
                    assert(mid =~= before.remove(i as int));
                }
                let mut added = pre_keys;
                let ghost av = added@;
                keys.append(&mut added);
                let ghost value = keys@;
                self.opks.push((name, keys));
                proof {
                    assert(value =~= before[i as int].1 + av);
                    assert(self.opk_rows() =~= mid.push((id, value)));
                    assert(self.opk_rows().drop_last() =~= mid);
                    assoc::lemma_assoc_push_distinct(mid, (id, value));
                    assert(assoc_map(self.opk_rows()) =~= assoc_map(before).insert(id, assoc_map(before)[id] + av));
                }
                Ok(())
            },
            None => {
                proof {
                    assert forall|j: int| 0 <= j < before.len() implies (#[trigger] before[j]).0 != id by {
                        assert(before[j].0 == self.opks@[j].0@);
                    }
                    assoc::lemma_assoc_absent(before, id);
                }
                Err(Status::new(Code::NotFound, "User not found."))
            },
        }
    }

    /// The identity key and signed prekey of a registered user.
    pub fn get_current_keys(&self, identity: &String) -> (res: Result<(VerifyingKey, wire::SignedPreKey), Status>)
        requires
            self.wf(),
        ensures
            res is Ok <==> self.users().contains_key(identity@),
            res matches Ok(k) ==> (k.0@, spk_view(k.1)) == self.users()[identity@],
            res matches Err(s) ==> s.code == Code::NotFound && s.message@ == "User not found."@,
    {
        let ghost rows = self.user_rows();
        match find_entry(&self.users, identity) {
            Some(i) => {
                proof {
                    assert(rows[i as int].0 == identity@);
                    assoc::lemma_assoc_at(rows, i as int);
                }
                let ik = self.users[i].1.0;
                Ok((ik, copy_spk(&self.users[i].1.1)))
            },
            None => {
                proof {
                    assert forall|j: int| 0 <= j < rows.len() implies (#[trigger] rows[j]).0 != identity@ by {
                        assert(rows[j].0 == self.users@[j].0@);
                    }
                    assoc::lemma_assoc_absent(rows, identity@);
                }
                Err(Status::new(Code::NotFound, "User not found."))
            },
        }
    }

    /// Takes a user's most recently added one-time prekey, if any.
    pub fn pop_opk(&mut self, identity: &String) -> (res: Result<Option<X25519Public>, Status>)
        requires
            old(self).wf(),
        ensures
            final(self).wf(),
            final(self).users() == old(self).users(),
            final(self).mailboxes() == old(self).mailboxes(),
            res is Ok,
            ({
                let left = held(old(self).opks(), identity@);
                if left.len() == 0 {
                    res == Ok::<Option<X25519Public>, Status>(None) && final(self).opks() == old(self).opks()
                } else {
                    res == Ok::<Option<X25519Public>, Status>(Some(left.last())) && final(self).opks() == old(
                        self,
                    ).opks().insert(identity@, left.drop_last())
                }
            }),
    {
        let ghost before = self.opk_rows();
        let ghost id = identity@;
        match find_entry(&self.opks, identity) {
            Some(i) => {
                proof {
                    assert(before[i as int].0 == id);
                    assoc::lemma_assoc_at(before, i as int);
                    assoc::lemma_assoc_remove(before, i as int);
                }
                let (name, mut keys) = self.opks.remove(i);
                let ghost mid = self.opk_rows();
                proof {
                    assert(mid =~= before.remove(i as int));
                }
                let ghost old_keys = keys@;
                let opk = keys.pop();
                let ghost value = keys@;
                self.opks.push((name, keys));
                proof {
                    assert(self.opk_rows() =~= mid.push((id, value)));
                    assert(self.opk_rows().drop_last() =~= mid);
                    assoc::lemma_assoc_push_distinct(mid, (id, value));
                    if old_keys.len() == 0 {
                        assert(assoc_map(self.opk_rows()) =~= assoc_map(before));
                    } else {
                        assert(value =~= old_keys.drop_last());
                        assert(assoc_map(self.opk_rows()) =~= assoc_map(before).insert(id, old_keys.drop_last()));
                    }
                }
                Ok(opk)
            },
            None => {
                proof {
                    assert forall|j: int| 0 <= j < before.len() implies (#[trigger] before[j]).0 != id by {
                        assert(before[j].0 == self.opks@[j].0@);
                    }
                    assoc::lemma_assoc_absent(before, id);
                }
                Ok(None)
            },
        }
    }

    /// Queues a message, making a mailbox for the recipient if it has none.
    pub fn add_message(&mut self, recipient: &String, message: wire::Message) -> (res: Result<(), Status>)
        requires
            old(self).wf(),
        ensures
            final(self).wf(),
            final(self).users() == old(self).users(),
            final(self).opks() == old(self).opks(),
            res is Ok,
            final(self).mailboxes() == old(self).mailboxes().insert(
                recipient@,
                held(old(self).mailboxes(), recipient@).push(message),
            ),
    {
        let ghost before = self.mail_rows();
        let ghost id = recipient@;
        let ghost m = message;
        match find_entry(&self.messages, recipient) {
            Some(i) => {
                proof {
                    assert(before[i as int].0 == id);
                    assoc::lemma_assoc_at(before, i as int);
                    assoc::lemma_assoc_remove(before, i as int);
                }
                let (name, mut queue) = self.messages.remove(i);
                let ghost mid = self.mail_rows();
                proof {
                    assert(mid =~= before.remove(i as int));
                }
                queue.push(message);
                let ghost value = queue@;
                self.messages.push((name, queue));
                proof {
                    assert(self.mail_rows() =~= mid.push((id, value)));
                    assert(self.mail_rows().drop_last() =~= mid);
                    assoc::lemma_assoc_push_distinct(mid, (id, value));
                    assert(assoc_map(self.mail_rows()) =~= assoc_map(before).insert(id, held(assoc_map(before), id).push(m)));
                }
            },
            None => {
                let mut queue: Vec<wire::Message> = Vec::new();
                queue.push(message);
                proof {
                    assert forall|j: int| 0 <= j < before.len() implies (#[trigger] before[j]).0 != id by {
                        assert(before[j].0 == self.messages@[j].0@);
                    }
                    assoc::lemma_assoc_absent(before, id);
                    assoc::lemma_assoc_push_distinct(before, (id, seq![m]));
                }
                self.messages.push((recipient.clone(), queue));
                proof {
                    assert(self.mail_rows() =~= before.push((id, seq![m])));
                    assert(self.mail_rows().drop_last() =~= before);
                    assert(held(assoc_map(before), id).push(m) =~= seq![m]);
                }
            },
        }
        Ok(())
    }

    /// Takes every queued message of a user, oldest first; the mailbox goes.
    pub fn get_messages(&mut self, identity: &String) -> (res: Result<Vec<wire::Message>, Status>)
        requires
            old(self).wf(),
        ensures
            final(self).wf(),
            final(self).users() == old(self).users(),
            final(self).opks() == old(self).opks(),
            res matches Ok(ms) && ms@ == held(old(self).mailboxes(), identity@),
            final(self).mailboxes() == old(self).mailboxes().remove(identity@),
    {
        let ghost before = self.mail_rows();
        let ghost id = identity@;
        match find_entry(&self.messages, identity) {
            Some(i) => {
                proof {
                    assert(before[i as int].0 == id);
                    assoc::lemma_assoc_at(before, i as int);
                    assoc::lemma_assoc_remove(before, i as int);
                }
                let (_, queue) = self.messages.remove(i);
                proof {
                    assert(self.mail_rows() =~= before.remove(i as int));
                }
                Ok(queue)
            },
            None => {
                proof {
                    assert forall|j: int| 0 <= j < before.len() implies (#[trigger] before[j]).0 != id by {
                        assert(before[j].0 == self.messages@[j].0@);
                    }
                    assoc::lemma_assoc_absent(before, id);
                    assert(assoc_map(before).remove(id) =~= assoc_map(before));
                }
                Ok(Vec::new())
            },
        }
    }
}

} // verus!
