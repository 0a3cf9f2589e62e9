//! A Gossamer ledger kept in memory, where each provider has exactly one key.
//!
//! A provider is claimed by the key that signs for it; the same key may claim
//! it again, another key may not. Only the owning key can revoke it. Each
//! accepted change is kept in the log.
use vstd::prelude::*;
use crate::gossamer::{self, Action, SignedMessage};
use crate::keys::VerifyingKey;
use crate::proto::gossamer as wire;
use crate::status::{Code, Status};
use crate::text;

verus! {

/// The text of the refusal to give a claimed provider to another key.
pub open spec fn already_registered_text(provider: Seq<u8>) -> Seq<char> {
    "Provider: "@ + text::debug_bytes(provider) + " is already registered."@
}

/// The code and text a valid signed change is refused with, or `None` when it
/// is accepted.
pub open spec fn memory_action_error(providers: Map<Seq<u8>, Seq<u8>>, c: gossamer::ChangeView) -> Option<(Code, Seq<char>)> {
    let (provider, public_key, action, signer) = c;
    if signer != public_key {
        Some((Code::Unimplemented, "Multiple identity keys for a given username is not yet supported."@))
    } else {
        match action {
            Action::AppendKey => if providers.contains_key(provider) && providers[provider] != public_key {
                Some((Code::AlreadyExists, already_registered_text(provider)))
            } else {
                None
            },
            Action::RevokeKey => if !providers.contains_key(provider) {
                Some((Code::FailedPrecondition, "Cannot revoke key that is not registered."@))
            } else if providers[provider] != public_key {
                Some((Code::PermissionDenied, "this key does not own the entry for this username"@))
            } else {
                None
            },
        }
    }
}

/// The providers after an accepted change.
pub open spec fn memory_providers_after(providers: Map<Seq<u8>, Seq<u8>>, c: gossamer::ChangeView) -> Map<Seq<u8>, Seq<u8>> {
    match c.2 {
        Action::AppendKey => providers.insert(c.0, c.1),
        Action::RevokeKey => providers.remove(c.0),
    }
}

/// Only a provider's key can change what the provider maps to: an accepted
/// change that moves or removes a claimed provider is signed by that
/// provider's key, and leaves every other provider as it was.
pub proof fn lemma_only_owner_changes_provider(providers: Map<Seq<u8>, Seq<u8>>, c: gossamer::ChangeView, p: Seq<u8>)
    requires
        memory_action_error(providers, c) is None,
        providers.contains_key(p),
    ensures
        !(memory_providers_after(providers, c).contains_key(p) && memory_providers_after(providers, c)[p] == providers[p])
            ==> c.3 == providers[p] && c.0 == p,
        p != c.0 ==> memory_providers_after(providers, c).contains_key(p) && memory_providers_after(providers, c)[p]
            == providers[p],
{
}

/// The in-memory ledger.
pub struct InMemoryGossamer {
    providers: Vec<(Vec<u8>, VerifyingKey)>,
    messages: Vec<wire::SignedMessage>,
    index: Ghost<Map<Seq<u8>, int>>,
}

impl InMemoryGossamer {
    /// Each claimed provider and its key.
    pub closed spec fn providers(&self) -> Map<Seq<u8>, Seq<u8>> {
        Map::new(
            |p: Seq<u8>| self.index@.dom().contains(p),
            |p: Seq<u8>| self.providers@[self.index@[p]].1@,
        )
    }

    /// The accepted signed changes, oldest first.
    pub closed spec fn log(&self) -> Seq<wire::SignedMessage> {
        self.messages@
    }

    /// The ledger's invariant.
    pub closed spec fn wf(&self) -> bool {
        &&& forall|p: Seq<u8>|
            #![trigger self.index@[p]]
            self.index@.dom().contains(p) ==> 0 <= self.index@[p] < self.providers@.len()
                && self.providers@[self.index@[p]].0@ == p
        &&& forall|i: int|
            #![trigger self.providers@[i]]
            0 <= i < self.providers@.len() ==> self.index@.dom().contains(self.providers@[i].0@)
                && self.index@[self.providers@[i].0@] == i
    }

    /// An empty ledger.
    pub fn new() -> (res: InMemoryGossamer)
        ensures
            res.wf(),
            res.providers() == Map::<Seq<u8>, Seq<u8>>::empty(),
            res.log() == Seq::<wire::SignedMessage>::empty(),
    {
        let res = InMemoryGossamer { providers: Vec::new(), messages: Vec::new(), index: Ghost(Map::empty()) };
        assert(res.providers() =~= Map::<Seq<u8>, Seq<u8>>::empty());
        assert(res.log() =~= Seq::<wire::SignedMessage>::empty());
        res
    }

    /// The position of `provider` among the entries.
    fn find(&self, provider: &[u8]) -> (res: Option<usize>)
        requires
            self.wf(),
        ensures
            res matches Some(i) ==> i < self.providers@.len() && self.index@.dom().contains(provider@)
                && self.index@[provider@] == i,
            res is None ==> !self.index@.dom().contains(provider@),
    {
        let n = self.providers.len();
        let mut i: usize = 0;
        while i < n
            invariant
                self.wf(),
                n == self.providers@.len(),
                i <= n,
                forall|j: int| 0 <= j < i ==> self.providers@[j].0@ != provider@,
            decreases n - i,
        {
            if crate::bytes::bytes_eq(self.providers[i].0.as_slice(), provider) {
                assert(self.providers@[i as int].0@ == provider@);
                return Some(i);
            }
            i = i + 1;
        }
        proof {
            if self.index@.dom().contains(provider@) {
                let j = self.index@[provider@];
                assert(self.providers@[j].0@ == provider@);
            }
        }
        None
    }

    /// Gives `provider` to `key`.
    fn put(&mut self, provider: Vec<u8>, key: VerifyingKey)
        requires
            old(self).wf(),
        ensures
            final(self).wf(),
            final(self).providers() == old(self).providers().insert(provider@, key@),
            final(self).log() == old(self).log(),
    {
        let ghost before = self.providers();
        let ghost old_entries = self.providers@;
        let ghost p = provider@;
        match self.find(provider.as_slice()) {
            Some(i) => {
                self.providers.set(i, (provider, key));
                proof {
                    assert forall|q: Seq<u8>| #[trigger] self.index@.dom().contains(q) implies 0 <= self.index@[q]
                        < self.providers@.len() && self.providers@[self.index@[q]].0@ == q by {
                        if q != p {
                            assert(self.providers@[self.index@[q]] == old_entries[self.index@[q]]);
                        }
                    }
                    assert forall|j: int| 0 <= j < self.providers@.len() implies self.index@.dom().contains(
                        (#[trigger] self.providers@[j]).0@,
                    ) && self.index@[self.providers@[j].0@] == j by {
                        if j != i {
                            assert(self.providers@[j] == old_entries[j]);
                        }
                    }
                    assert forall|q: Seq<u8>| #[trigger] self.providers().contains_key(q) implies self.providers()[q]
                        == before.insert(p, key@)[q] by {
                        if q != p {
                            assert(self.providers@[self.index@[q]] == old_entries[self.index@[q]]);
                        }
                    }
                    assert(self.providers() =~= before.insert(p, key@));
                }
            },
            None => {
                let ghost n = self.providers@.len() as int;
                self.providers.push((provider, key));
                proof {
                    let new_index = self.index@.insert(p, n);
                    assert forall|q: Seq<u8>| #[trigger] new_index.dom().contains(q) implies 0 <= new_index[q]
                        < self.providers@.len() && self.providers@[new_index[q]].0@ == q by {
                        if q != p {
                            assert(self.providers@[self.index@[q]] == old_entries[self.index@[q]]);
                        }
                    }
                    assert forall|j: int| 0 <= j < self.providers@.len() implies new_index.dom().contains(
                        (#[trigger] self.providers@[j]).0@,
                    ) && new_index[self.providers@[j].0@] == j by {
                        if j < n {
                            assert(self.providers@[j] == old_entries[j]);
                            assert(self.index@[old_entries[j].0@] == j);
                        }
                    }
                    self.index@ = new_index;
                    assert forall|q: Seq<u8>| #[trigger] self.providers().contains_key(q) implies self.providers()[q]
                        == before.insert(p, key@)[q] by {
                        if q != p {
                            assert(self.providers@[self.index@[q]] == old_entries[self.index@[q]]);
                        }
                    }
                    assert(self.providers() =~= before.insert(p, key@));
                }
            },
        }
    }

    /// Takes `provider` away from its key; the entry at `i` is the provider's.
    fn take(&mut self, i: usize, provider: &[u8])
        requires
            old(self).wf(),
            i < old(self).providers@.len(),
            old(self).index@.dom().contains(provider@),
            old(self).index@[provider@] == i,
        ensures
            final(self).wf(),
            final(self).providers() == old(self).providers().remove(provider@),
            final(self).log() == old(self).log(),
    {
        let ghost before = self.providers();
        let ghost old_entries = self.providers@;
        let ghost old_index = self.index@;
        let ghost p = provider@;
        let _removed = self.providers.remove(i);
        proof {
            let r = i as int;
            let new_index = Map::new(
                |q: Seq<u8>| old_index.dom().contains(q) && q != p,
                |q: Seq<u8>| if old_index[q] > r { old_index[q] - 1 } else { old_index[q] },
            );
            assert forall|q: Seq<u8>| #[trigger] new_index.dom().contains(q) implies 0 <= new_index[q]
                < self.providers@.len() && self.providers@[new_index[q]].0@ == q by {
                let o = old_index[q];
                assert(old_entries[o].0@ == q);
                assert(o != r);
                if o > r {
                    assert(self.providers@[o - 1] == old_entries[o]);
                } else {
                    assert(self.providers@[o] == old_entries[o]);
                }
            }
            assert forall|j: int| 0 <= j < self.providers@.len() implies new_index.dom().contains(
                (#[trigger] self.providers@[j]).0@,
            ) && new_index[self.providers@[j].0@] == j by {
                if j < r {
                    assert(self.providers@[j] == old_entries[j]);
                    assert(old_index[old_entries[j].0@] == j);
                    assert(old_index[old_entries[r].0@] == r);
                } else {
                    assert(self.providers@[j] == old_entries[j + 1]);
                    assert(old_index[old_entries[j + 1].0@] == j + 1);
                    assert(old_index[old_entries[r].0@] == r);
                }
            }
            self.index@ = new_index;
            assert forall|q: Seq<u8>| #[trigger] self.providers().contains_key(q) implies self.providers()[q]
                == before.remove(p)[q] by {
                let o = old_index[q];
                if o > r {
                    assert(self.providers@[o - 1] == old_entries[o]);
                } else {
                    assert(self.providers@[o] == old_entries[o]);
                }
            }
            assert(self.providers() =~= before.remove(p));
        }
    }

    /// Checks a signed change and applies it: the signer must be the key it
    /// names; a provider is claimed by one key only and revoked by that key.
    /// Accepted changes go to the log.
    pub fn handle_action(&mut self, message: wire::SignedMessage) -> (res: Result<(), Status>)
        requires
            old(self).wf(),
        ensures
            final(self).wf(),
            match gossamer::signed_message_error(message) {
                Some(code) => res matches Err(s) && s.code == code,
                None => match memory_action_error(old(self).providers(), gossamer::signed_change(message)) {
                    Some((code, text)) => res matches Err(s) && s.code == code && s.message@ == text,
                    None => res is Ok,
                },
            },
            res is Err ==> final(self).providers() == old(self).providers() && final(self).log() == old(self).log(),
            res is Ok ==> final(self).providers() == memory_providers_after(
                old(self).providers(),
                gossamer::signed_change(message),
            ) && final(self).log() == old(self).log().push(message),
    {
        let signed_message = match SignedMessage::try_from_proto(&message) {
            Ok(m) => m,
            Err(e) => return Err(e),
        };
        if !signed_message.identity_key.same_key(&signed_message.message.public_key) {
            return Err(Status::new(
                Code::Unimplemented,
                "Multiple identity keys for a given username is not yet supported.",
            ));
        }
        let provider = signed_message.message.provider;
        let public_key = signed_message.message.public_key;
        match signed_message.message.action {
            Action::AppendKey => {
                match self.find(provider.as_slice()) {
                    Some(i) => {
                        if !self.providers[i].1.same_key(&public_key) {
                            let mut text = "Provider: ".to_owned();
                            let list = text::write_debug_bytes(provider.as_slice());
                            text.append(list.as_str());
                            text.append(" is already registered.");
                            return Err(Status { code: Code::AlreadyExists, message: text });
                        }
                    },
                    None => {},
                }
                self.put(provider, public_key);
            },
            Action::RevokeKey => {
                match self.find(provider.as_slice()) {
                    Some(i) => {
                        if self.providers[i].1.same_key(&public_key) {
                            self.take(i, provider.as_slice());
                        } else {
                            return Err(Status::new(
                                Code::PermissionDenied,
                                "this key does not own the entry for this username",
                            ));
                        }
                    },
                    None => {
                        return Err(Status::new(Code::FailedPrecondition, "Cannot revoke key that is not registered."));
                    },
                }
            },
        }
        self.messages.push(message);
        Ok(())
    }

    /// Handles an action request: an empty request is an invalid argument.
    pub fn action(&mut self, request: crate::gossamer_service::ActionRequest) -> (res: Result<
        crate::gossamer_service::ActionResponse,
        Status,
    >)
        requires
            old(self).wf(),
        ensures
            final(self).wf(),
            request.message is None ==> (res matches Err(s) && s.code == Code::InvalidArgument)
                && final(self).providers() == old(self).providers() && final(self).log() == old(self).log(),
            request.message matches Some(m) ==> match gossamer::signed_message_error(m) {
                Some(code) => res matches Err(s) && s.code == code,
                None => match memory_action_error(old(self).providers(), gossamer::signed_change(m)) {
                    Some((code, text)) => res matches Err(s) && s.code == code && s.message@ == text,
                    None => res is Ok && final(self).providers() == memory_providers_after(
                        old(self).providers(),
                        gossamer::signed_change(m),
                    ),
                },
            },
    {
        match request.message {
            Some(signed_message) => match self.handle_action(signed_message) {
                Ok(()) => Ok(crate::gossamer_service::ActionResponse {}),
                Err(e) => Err(e),
            },
            None => Err(Status::new(Code::InvalidArgument, "Empty Gossamer Action.")),
        }
    }

    /// The ledger: one entry per provider, holding its key.
    pub fn get_ledger(&self) -> (res: wire::Ledger)
        requires
            self.wf(),
        ensures
            res.users@.len() == self.providers().len(),
            forall|g: int| 0 <= g < res.users@.len() ==> {
                let u = #[trigger] res.users@[g];
                &&& u.provider matches Some(p) && self.providers().contains_key(p@)
                &&& u.public_keys@.len() == 1
                &&& u.public_keys@[0]@ == self.providers()[u.provider.unwrap()@]
            },
            forall|p: Seq<u8>| #[trigger] self.providers().contains_key(p) ==> exists|g: int|
                0 <= g < res.users@.len() && crate::gossamer_service::user_provider(#[trigger] res.users@[g]) == Some(p),
    {
        let n = self.providers.len();
        let mut users: Vec<wire::User> = Vec::new();
        let mut i: usize = 0;
        while i < n
            invariant
                self.wf(),
                n == self.providers@.len(),
                i <= n,
                users@.len() == i,
                forall|g: int| 0 <= g < i ==> {
                    let u = #[trigger] users@[g];
                    &&& u.provider matches Some(p) && p@ == self.providers@[g].0@
                    &&& u.public_keys@.len() == 1
                    &&& u.public_keys@[0]@ == self.providers@[g].1@
                },
            decreases n - i,
        {
            let key = self.providers[i].1.to_bytes();
            let mut public_keys: Vec<Vec<u8>> = Vec::new();
            public_keys.push(crate::bytes::to_vec(&key));
            users.push(wire::User { provider: Some(crate::bytes::to_vec(self.providers[i].0.as_slice())), public_keys });
            i = i + 1;
        }
        proof {
            assert forall|g: int| 0 <= g < users@.len() implies {
                let u = #[trigger] users@[g];
                &&& u.provider matches Some(p) && self.providers().contains_key(p@)
                &&& u.public_keys@.len() == 1
                &&& u.public_keys@[0]@ == self.providers()[u.provider.unwrap()@]
            } by {
                assert(self.index@.dom().contains(self.providers@[g].0@));
            }
            assert forall|p: Seq<u8>| #[trigger] self.providers().contains_key(p) implies exists|g: int|
                0 <= g < users@.len() && crate::gossamer_service::user_provider(#[trigger] users@[g]) == Some(p) by {
                let g = self.index@[p];
                assert(users@[g].provider.unwrap()@ == p);
            }
            lemma_index_len(self.index@, self.providers@.map_values(|e: (Vec<u8>, VerifyingKey)| e.0@));
            assert(self.providers().dom() =~= self.index@.dom());
        }
        wire::Ledger { users }
    }
}

/// An index that maps each key of a sequence of distinct keys to its position
/// has as many entries as the sequence.
proof fn lemma_index_len(index: Map<Seq<u8>, int>, keys: Seq<Seq<u8>>)
    requires
        forall|p: Seq<u8>| #[trigger] index.dom().contains(p) ==> 0 <= index[p] < keys.len() && keys[index[p]] == p,
        forall|i: int| 0 <= i < keys.len() ==> index.dom().contains(#[trigger] keys[i]) && index[keys[i]] == i,
    ensures
        index.dom().finite(),
        index.dom().len() == keys.len(),
    decreases keys.len(),
{
    if keys.len() == 0 {
        assert(index.dom() =~= Set::<Seq<u8>>::empty());
    } else {
        let last = keys.last();
        let rest = keys.drop_last();
        let smaller = index.remove(last);
        assert forall|p: Seq<u8>| #[trigger] smaller.dom().contains(p) implies 0 <= smaller[p] < rest.len()
            && rest[smaller[p]] == p by {
            assert(index[p] != keys.len() - 1);
        }
        assert forall|i: int| 0 <= i < rest.len() implies smaller.dom().contains(#[trigger] rest[i]) && smaller[rest[i]]
            == i by {
            assert(rest[i] == keys[i]);
            assert(index[keys[i]] == i);
        }
        lemma_index_len(smaller, rest);
        assert(index.dom() =~= smaller.dom().insert(last));
    }
}

} // verus!
