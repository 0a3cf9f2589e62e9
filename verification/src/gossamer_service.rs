//! The Gossamer service: it checks each signed change against the ledger's
//! authorization rules, applies the accepted ones and keeps them in the log.
use vstd::prelude::*;
use crate::crypto;
use crate::gossamer::{self, Action, SignedMessage};
use crate::gossamer_persistence::{self as persistence, GossamerStorage};
use crate::keys::VerifyingKey;
use crate::proto::gossamer as wire;
use crate::status::{Code, Status};

verus! {

/// `signer` is one of the keys registered for `provider`.
pub open spec fn is_authorized(owners: Map<Seq<u8>, Seq<u8>>, provider: Seq<u8>, signer: Seq<u8>) -> bool {
    owners.contains_key(signer) && owners[signer] == provider
}

/// `signer` claims the unregistered `provider` for itself: the signer is the key
/// being added and belongs to no provider yet.
pub open spec fn is_new_claim(
    providers: Set<Seq<u8>>,
    owners: Map<Seq<u8>, Seq<u8>>,
    provider: Seq<u8>,
    public_key: Seq<u8>,
    signer: Seq<u8>,
) -> bool {
    !providers.contains(provider) && !owners.contains_key(signer) && signer == public_key
}

/// The code a valid signed change is refused with, or `None` when it is accepted.
///
/// An unauthorized signer is refused for a registered provider; for an
/// unregistered one it must claim the provider with its own, unowned key.
/// A key owned by another provider cannot be appended, and only a key of the
/// provider can be revoked.
pub open spec fn action_error(providers: Set<Seq<u8>>, owners: Map<Seq<u8>, Seq<u8>>, c: gossamer::ChangeView) -> Option<Code> {
    let (provider, public_key, action, signer) = c;
    let authorized = is_authorized(owners, provider, signer);
    if !authorized && providers.contains(provider) {
        Some(Code::PermissionDenied)
    } else if !authorized && owners.contains_key(signer) {
        Some(Code::PermissionDenied)
    } else if !authorized && signer != public_key {
        Some(Code::PermissionDenied)
    } else {
        match action {
            Action::AppendKey => if owners.contains_key(public_key) && owners[public_key] != provider {
                Some(Code::PermissionDenied)
            } else {
                None
            },
            Action::RevokeKey => if is_authorized(owners, provider, public_key) {
                None
            } else {
                Some(Code::PermissionDenied)
            },
        }
    }
}

/// The text a valid signed change is refused with, when `action_error` refuses it.
pub open spec fn action_error_text(providers: Set<Seq<u8>>, owners: Map<Seq<u8>, Seq<u8>>, c: gossamer::ChangeView) -> Seq<char> {
    let (provider, public_key, action, signer) = c;
    let authorized = is_authorized(owners, provider, signer);
    if !authorized && providers.contains(provider) {
        "The signing key is not authorized for this provider."@
    } else if !authorized && owners.contains_key(signer) {
        "This key is already associated with another provider: 0x"@ + crypto::hex_lower(owners[signer])
    } else if !authorized && signer != public_key {
        "New provider names must be claimed by the key being added."@
    } else {
        match action {
            Action::AppendKey => "The public key being added is already associated with another provider: 0x"@
                + crypto::hex_lower(owners[public_key]),
            Action::RevokeKey =>
                "Cannot revoke key that is not registered or this key does not own the entry for this username"@,
        }
    }
}

/// Every registered key belongs to a registered provider.
pub open spec fn owners_registered(providers: Set<Seq<u8>>, owners: Map<Seq<u8>, Seq<u8>>) -> bool {
    forall|k: Seq<u8>| #[trigger] owners.contains_key(k) ==> providers.contains(owners[k])
}

/// The registered providers after an accepted change.
pub open spec fn providers_after(providers: Set<Seq<u8>>, c: gossamer::ChangeView) -> Set<Seq<u8>> {
    match c.2 {
        Action::AppendKey => providers.insert(c.0),
        Action::RevokeKey => providers,
    }
}

/// The key owners after an accepted change.
pub open spec fn owners_after(owners: Map<Seq<u8>, Seq<u8>>, c: gossamer::ChangeView) -> Map<Seq<u8>, Seq<u8>> {
    match c.2 {
        Action::AppendKey => if owners.contains_key(c.1) { owners } else { owners.insert(c.1, c.0) },
        Action::RevokeKey => owners.remove(c.1),
    }
}

/// A change is accepted only when its signer holds a key of the provider, or
/// when the signer claims a provider nobody holds with its own, unowned key.
pub proof fn lemma_accepted_change_is_authorized(
    providers: Set<Seq<u8>>,
    owners: Map<Seq<u8>, Seq<u8>>,
    c: gossamer::ChangeView,
)
    requires
        action_error(providers, owners, c) is None,
    ensures
        is_authorized(owners, c.0, c.3) || is_new_claim(providers, owners, c.0, c.1, c.3),
{
}

/// A provider nobody holds can be claimed: a key that belongs to no provider
/// and signs its own addition is accepted, and then owns the provider.
pub proof fn lemma_fresh_claim_accepted(
    providers: Set<Seq<u8>>,
    owners: Map<Seq<u8>, Seq<u8>>,
    provider: Seq<u8>,
    key: Seq<u8>,
)
    requires
        !providers.contains(provider),
        !owners.contains_key(key),
    ensures
        action_error(providers, owners, (provider, key, Action::AppendKey, key)) is None,
        owners_after(owners, (provider, key, Action::AppendKey, key)) == owners.insert(key, provider),
        providers_after(providers, (provider, key, Action::AppendKey, key)).contains(provider),
{
}

/// An owner can always add a key nobody holds to its provider, and revoke
/// any key of its provider.
pub proof fn lemma_owner_manages_keys(
    providers: Set<Seq<u8>>,
    owners: Map<Seq<u8>, Seq<u8>>,
    provider: Seq<u8>,
    signer: Seq<u8>,
    key: Seq<u8>,
)
    requires
        is_authorized(owners, provider, signer),
    ensures
        !owners.contains_key(key) ==> action_error(providers, owners, (provider, key, Action::AppendKey, signer)) is None,
        is_authorized(owners, provider, key) ==> action_error(providers, owners, (provider, key, Action::RevokeKey, signer))
            is None,
{
}

/// A registered provider stays registered, whatever change is accepted.
pub proof fn lemma_providers_are_permanent(
    providers: Set<Seq<u8>>,
    owners: Map<Seq<u8>, Seq<u8>>,
    c: gossamer::ChangeView,
    p: Seq<u8>,
)
    requires
        action_error(providers, owners, c) is None,
        providers.contains(p),
    ensures
        providers_after(providers, c).contains(p),
{
}

/// A key never moves from one provider to another: an accepted change either
/// leaves a key's owner as it was or, for a revocation, removes the key.
pub proof fn lemma_key_ownership_never_transfers(
    providers: Set<Seq<u8>>,
    owners: Map<Seq<u8>, Seq<u8>>,
    c: gossamer::ChangeView,
    k: Seq<u8>,
)
    requires
        action_error(providers, owners, c) is None,
        owners.contains_key(k),
    ensures
        owners_after(owners, c).contains_key(k) ==> owners_after(owners, c)[k] == owners[k],
        !owners_after(owners, c).contains_key(k) ==> c.2 == Action::RevokeKey && k == c.1,
{
}

/// An accepted change does what its action says to the key it names: after a
/// revocation the key belongs to no provider, and after an append it belongs to
/// the change's provider.
pub proof fn lemma_change_applies_its_action(
    providers: Set<Seq<u8>>,
    owners: Map<Seq<u8>, Seq<u8>>,
    c: gossamer::ChangeView,
)
    requires
        action_error(providers, owners, c) is None,
    ensures
        c.2 == Action::RevokeKey ==> !owners_after(owners, c).contains_key(c.1),
        c.2 == Action::RevokeKey ==> owners.contains_key(c.1) && owners[c.1] == c.0,
        c.2 == Action::AppendKey ==> owners_after(owners, c).contains_key(c.1) && owners_after(owners, c)[c.1] == c.0,
        c.2 == Action::AppendKey ==> providers_after(providers, c).contains(c.0),
{
}

/// An accepted change touches only the key it names: every other key keeps
/// its owner, or stays unowned.
pub proof fn lemma_change_touches_only_its_key(
    providers: Set<Seq<u8>>,
    owners: Map<Seq<u8>, Seq<u8>>,
    c: gossamer::ChangeView,
    k: Seq<u8>,
)
    requires
        action_error(providers, owners, c) is None,
        k != c.1,
    ensures
        owners_after(owners, c).contains_key(k) == owners.contains_key(k),
        owners.contains_key(k) ==> owners_after(owners, c)[k] == owners[k],
{
}

/// After an accepted change every key still belongs to a registered provider.
pub proof fn lemma_owners_stay_registered(
    providers: Set<Seq<u8>>,
    owners: Map<Seq<u8>, Seq<u8>>,
    c: gossamer::ChangeView,
)
    requires
        forall|k: Seq<u8>| #[trigger] owners.contains_key(k) ==> providers.contains(owners[k]),
        action_error(providers, owners, c) is None,
    ensures
        forall|k: Seq<u8>| #[trigger] owners_after(owners, c).contains_key(k)
            ==> providers_after(providers, c).contains(owners_after(owners, c)[k]),
{
}

/// A request to change the ledger.
#[derive(Clone, Debug)]
pub struct ActionRequest {
    pub message: Option<wire::SignedMessage>,
}

/// The reply to an accepted change.
#[derive(Clone, Debug)]
pub struct ActionResponse {}

/// The Gossamer service over its storage.
pub struct Service {
    storage: GossamerStorage,
}

impl Service {
    /// The service's invariant.
    pub closed spec fn wf(&self) -> bool {
        self.storage.wf()
    }

    /// The registered providers.
    pub closed spec fn providers(&self) -> Set<Seq<u8>> {
        self.storage.providers()
    }

    /// The provider each registered key belongs to.
    pub closed spec fn owners(&self) -> Map<Seq<u8>, Seq<u8>> {
        self.storage.owners()
    }

    /// The log of accepted signed messages.
    pub closed spec fn log(&self) -> Seq<(Seq<u8>, wire::SignedMessage)> {
        self.storage.log()
    }

    pub fn new(storage: GossamerStorage) -> (res: Self)
        requires
            storage.wf(),
        ensures
            res.wf(),
            res.providers() == storage.providers(),
            res.owners() == storage.owners(),
            res.log() == storage.log(),
    {
        Self { storage }
    }

    /// Checks a signed change against the ledger and applies it when the
    /// signer is allowed to make it; accepted changes are appended to the log.
    pub fn handle_action(&mut self, message: wire::SignedMessage) -> (res: Result<(), Status>)
        requires
            old(self).wf(),
        ensures
            final(self).wf(),
            owners_registered(final(self).providers(), final(self).owners()),
            match gossamer::signed_message_error(message) {
                Some(code) => res matches Err(s) && s.code == code,
                None => match action_error(old(self).providers(), old(self).owners(), gossamer::signed_change(message)) {
                    Some(code) => res matches Err(s) && s.code == code && s.message@ == action_error_text(
                        old(self).providers(),
                        old(self).owners(),
                        gossamer::signed_change(message),
                    ),
                    None => res is Ok,
                },
            },
            res is Err ==> {
                &&& final(self).providers() == old(self).providers()
                &&& final(self).owners() == old(self).owners()
                &&& final(self).log() == old(self).log()
            },
            res is Ok ==> {
                let c = gossamer::signed_change(message);
                &&& final(self).providers() == providers_after(old(self).providers(), c)
                &&& final(self).owners() == owners_after(old(self).owners(), c)
                &&& final(self).log() == old(self).log().push((c.0, message))
            },
            res is Ok && gossamer::signed_change(message).2 == Action::RevokeKey ==> !final(self).owners().contains_key(
                gossamer::signed_change(message).1,
            ) && final(self).providers() == old(self).providers(),
            res is Ok && gossamer::signed_change(message).2 == Action::AppendKey ==> final(self).owners().contains_key(
                gossamer::signed_change(message).1,
            ) && final(self).owners()[gossamer::signed_change(message).1] == gossamer::signed_change(message).0
                && final(self).providers().contains(gossamer::signed_change(message).0),
    {
        let res = self.apply_action(message);
        proof {
            self.lemma_owners_registered();
        }
        res
    }

    /// The checks and the update of `handle_action`.
    fn apply_action(&mut self, message: wire::SignedMessage) -> (res: Result<(), Status>)
        requires
            old(self).wf(),
        ensures
            final(self).wf(),
            match gossamer::signed_message_error(message) {
                Some(code) => res matches Err(s) && s.code == code,
                None => match action_error(old(self).providers(), old(self).owners(), gossamer::signed_change(message)) {
                    Some(code) => res matches Err(s) && s.code == code && s.message@ == action_error_text(
                        old(self).providers(),
                        old(self).owners(),
                        gossamer::signed_change(message),
                    ),
                    None => res is Ok,
                },
            },
            res is Err ==> {
                &&& final(self).providers() == old(self).providers()
                &&& final(self).owners() == old(self).owners()
                &&& final(self).log() == old(self).log()
            },
            res is Ok ==> {
                let c = gossamer::signed_change(message);
                &&& final(self).providers() == providers_after(old(self).providers(), c)
                &&& final(self).owners() == owners_after(old(self).owners(), c)
                &&& final(self).log() == old(self).log().push((c.0, message))
            },
            res is Ok && gossamer::signed_change(message).2 == Action::RevokeKey ==> !final(self).owners().contains_key(
                gossamer::signed_change(message).1,
            ) && final(self).providers() == old(self).providers(),
            res is Ok && gossamer::signed_change(message).2 == Action::AppendKey ==> final(self).owners().contains_key(
                gossamer::signed_change(message).1,
            ) && final(self).owners()[gossamer::signed_change(message).1] == gossamer::signed_change(message).0
                && final(self).providers().contains(gossamer::signed_change(message).0),
    {
        // `try_from_proto` verifies that `identity_key` signed the contents.
        let signed_message = match SignedMessage::try_from_proto(&message) {
            Ok(m) => m,
            Err(e) => return Err(e),
        };
        let ghost c = gossamer::signed_change(message);
        let provider = signed_message.message.provider;
        let public_key = signed_message.message.public_key;
        let identity_key = signed_message.identity_key;

        let is_authorized = self.storage.has_key(provider.as_slice(), &identity_key);
        let has_provider = self.storage.has_provider(provider.as_slice());

        if !is_authorized && has_provider {
            return Err(Status::new(Code::PermissionDenied, "The signing key is not authorized for this provider."));
        }

        if !is_authorized && !has_provider {
            match self.storage.get_key_provider(&identity_key) {
                Some(existing_provider) => {
                    let hex = crypto::hex_encode(existing_provider.as_slice());
                    return Err(Status::with_detail(
                        Code::PermissionDenied,
                        "This key is already associated with another provider: 0x",
                        hex.as_str(),
                    ));
                },
                None => {},
            }
            if !identity_key.same_key(&public_key) {
                return Err(Status::new(
                    Code::PermissionDenied,
                    "New provider names must be claimed by the key being added.",
                ));
            }
        }

        match signed_message.message.action {
            Action::AppendKey => {
                // A key being added by an authorized signer need not prove
                // possession: the authorized user manages its own key set.
                match self.storage.get_key_provider(&public_key) {
                    Some(owner) => {
                        if !crate::bytes::bytes_eq(owner.as_slice(), provider.as_slice()) {
                            let hex = crypto::hex_encode(owner.as_slice());
                            return Err(Status::with_detail(
                                Code::PermissionDenied,
                                "The public key being added is already associated with another provider: 0x",
                                hex.as_str(),
                            ));
                        }
                    },
                    None => {},
                }
                let _inserted = self.storage.append_key(provider.as_slice(), &public_key);
            },
            Action::RevokeKey => {
                proof {
                    if self.storage.owners().contains_key(public_key@) {
                        self.storage.lemma_owner_registered(public_key@);
                    }
                }
                let revoked = self.storage.revoke_key(provider.as_slice(), &public_key);
                if !revoked {
                    return Err(Status::new(
                        Code::PermissionDenied,
                        "Cannot revoke key that is not registered or this key does not own the entry for this username",
                    ));
                }
            },
        }

        match self.storage.append_message(provider.as_slice(), message) {
            Ok(()) => Ok(()),
            Err(_) => Err(Status::new(Code::Internal, "failed to append message")),
        }
    }

    /// Handles an action request: an empty request is an invalid argument;
    /// otherwise the signed change is handled as `handle_action` does.
    pub fn action(&mut self, request: ActionRequest) -> (res: Result<ActionResponse, Status>)
        requires
            old(self).wf(),
        ensures
            final(self).wf(),
            owners_registered(final(self).providers(), final(self).owners()),
            request.message is None ==> (res matches Err(s) && s.code == Code::InvalidArgument && s.message@
                == "Empty Gossamer Action."@),
            request.message matches Some(m) ==> match gossamer::signed_message_error(m) {
                Some(code) => res matches Err(s) && s.code == code,
                None => match action_error(old(self).providers(), old(self).owners(), gossamer::signed_change(m)) {
                    Some(code) => res matches Err(s) && s.code == code && s.message@ == action_error_text(
                        old(self).providers(),
                        old(self).owners(),
                        gossamer::signed_change(m),
                    ),
                    None => res is Ok,
                },
            },
            res is Err ==> {
                &&& final(self).providers() == old(self).providers()
                &&& final(self).owners() == old(self).owners()
                &&& final(self).log() == old(self).log()
            },
            request.message matches Some(m) ==> (res is Ok ==> {
                let c = gossamer::signed_change(m);
                &&& final(self).providers() == providers_after(old(self).providers(), c)
                &&& final(self).owners() == owners_after(old(self).owners(), c)
                &&& final(self).log() == old(self).log().push((c.0, m))
                &&& c.2 == Action::RevokeKey ==> !final(self).owners().contains_key(c.1)
                &&& c.2 == Action::AppendKey ==> final(self).owners().contains_key(c.1) && final(self).owners()[c.1]
                    == c.0
            }),
    {
        match request.message {
            Some(signed_message) => match self.handle_action(signed_message) {
                Ok(()) => Ok(ActionResponse {}),
                Err(e) => Err(e),
            },
            None => {
                proof {
                    self.lemma_owners_registered();
                }
                Err(Status::new(Code::InvalidArgument, "Empty Gossamer Action."))
            },
        }
    }

    /// Every registered key belongs to a registered provider.
    pub proof fn lemma_owners_registered(&self)
        requires
            self.wf(),
        ensures
            owners_registered(self.providers(), self.owners()),
    {
        assert forall|k: Seq<u8>| #[trigger] self.owners().contains_key(k) implies self.providers().contains(
            self.owners()[k],
        ) by {
            self.storage.lemma_owner_registered(k);
        }
    }

    /// The ledger: every provider that has keys, with its keys.
    pub fn get_ledger(&self) -> (res: wire::Ledger)
        requires
            self.wf(),
        ensures
            is_ledger_of(self.owners(), res),
    {
        let grouped = self.storage.get_ledger();
        let n = grouped.len();
        let mut users: Vec<wire::User> = Vec::new();
        let mut i: usize = 0;
        while i < n
            invariant
                n == grouped@.len(),
                i <= n,
                users@.len() == i,
                forall|g: int| 0 <= g < i ==> user_matches(#[trigger] users@[g], grouped@[g]),
            decreases n - i,
        {
            let provider = crate::bytes::to_vec(grouped[i].0.as_slice());
            let keys = &grouped[i].1;
            let m = keys.len();
            let mut public_keys: Vec<Vec<u8>> = Vec::new();
            let mut j: usize = 0;
            while j < m
                invariant
                    m == keys@.len(),
                    j <= m,
                    public_keys@.len() == j,
                    forall|t: int| 0 <= t < j ==> (#[trigger] public_keys@[t])@ == keys@[t]@,
                decreases m - j,
            {
                let bytes = keys[j].to_bytes();
                public_keys.push(crate::bytes::to_vec(&bytes));
                j = j + 1;
            }
            users.push(wire::User { provider: Some(provider), public_keys });
            i = i + 1;
        }
        proof {
            let owners = self.owners();
            let ledger = wire::Ledger { users };
            assert(persistence::is_grouping(owners, grouped@));
            assert forall|a: int, b: int| 0 <= a < b < users@.len() implies user_provider(#[trigger] users@[a])
                != user_provider(#[trigger] users@[b]) by {
                assert(grouped@[a].0@ != grouped@[b].0@);
            }
            assert forall|g: int, j: int| 0 <= g < users@.len() && 0 <= j < users@[g].public_keys@.len() implies owners.contains_key(
                (#[trigger] users@[g].public_keys@[j])@,
            ) && Some(owners[users@[g].public_keys@[j]@]) == user_provider(users@[g]) by {
                assert(users@[g].public_keys@[j]@ == grouped@[g].1@[j]@);
            }
            assert forall|k: Seq<u8>| #[trigger] owners.contains_key(k) implies exists|g: int, j: int|
                0 <= g < users@.len() && 0 <= j < users@[g].public_keys@.len() && (#[trigger] users@[g].public_keys@[j])@ == k by {
                let (g, j) = choose|g: int, j: int|
                    0 <= g < grouped@.len() && 0 <= j < grouped@[g].1@.len() && (#[trigger] grouped@[g].1@[j])@ == k;
                assert(users@[g].public_keys@[j]@ == k);
            }
            assert forall|g: int| 0 <= g < users@.len() implies (#[trigger] users@[g]).public_keys@.len() > 0 by {
                assert(grouped@[g].1@.len() > 0);
            }
            assert forall|g: int, a: int, b: int|
                0 <= g < users@.len() && 0 <= a < b < users@[g].public_keys@.len() implies (#[trigger] users@[
                    g].public_keys@[a])@ != (#[trigger] users@[g].public_keys@[b])@ by {
                assert(users@[g].public_keys@[a]@ == grouped@[g].1@[a]@);
                assert(users@[g].public_keys@[b]@ == grouped@[g].1@[b]@);
            }
        }
        wire::Ledger { users }
    }
}

/// The provider of a ledger entry.
pub open spec fn user_provider(u: wire::User) -> Option<Seq<u8>> {
    match u.provider {
        Some(p) => Some(p@),
        None => None,
    }
}

/// The entry lists the group's provider and keys.
pub open spec fn user_matches(u: wire::User, g: (Vec<u8>, Vec<VerifyingKey>)) -> bool {
    &&& user_provider(u) == Some(g.0@)
    &&& u.public_keys@.len() == g.1@.len()
    &&& forall|t: int| 0 <= t < g.1@.len() ==> (#[trigger] u.public_keys@[t])@ == g.1@[t]@
}

/// `ledger` lists the keys of `owners` grouped by provider: each provider once,
/// no empty entry, only keys of the entry's provider, each once, and every key.
pub open spec fn is_ledger_of(owners: Map<Seq<u8>, Seq<u8>>, ledger: wire::Ledger) -> bool {
    let users = ledger.users@;
    &&& forall|a: int, b: int|
        0 <= a < b < users.len() ==> user_provider(#[trigger] users[a]) != user_provider(#[trigger] users[b])
    &&& forall|g: int| 0 <= g < users.len() ==> (#[trigger] users[g]).public_keys@.len() > 0
    &&& forall|g: int, a: int, b: int|
        0 <= g < users.len() && 0 <= a < b < users[g].public_keys@.len() ==> (#[trigger] users[g].public_keys@[a])@
            != (#[trigger] users[g].public_keys@[b])@
    &&& forall|g: int, j: int|
        0 <= g < users.len() && 0 <= j < users[g].public_keys@.len() ==> owners.contains_key(
            (#[trigger] users[g].public_keys@[j])@,
        ) && Some(owners[users[g].public_keys@[j]@]) == user_provider(users[g])
    &&& forall|k: Seq<u8>|
        #[trigger] owners.contains_key(k) ==> exists|g: int, j: int|
            0 <= g < users.len() && 0 <= j < users[g].public_keys@.len() && (#[trigger] users[g].public_keys@[j])@ == k
}

} // verus!
