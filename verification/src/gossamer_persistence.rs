//! The ledger's storage: registered providers, the provider each public key
//! belongs to, and the audit log of accepted signed messages.
//!
//! The store keeps the rules of its relational schema: a provider, once
//! registered, stays registered; a public key belongs to at most one provider
//! and only to a registered one; every log entry names a registered provider.
use vstd::prelude::*;
use crate::bytes;
use crate::keys::VerifyingKey;
use crate::proto::gossamer as wire;

verus! {

/// Why the store refused a write.
#[derive(Debug, PartialEq, Eq, Structural, Clone, Copy)]
pub enum StorageError {
    /// The log entry names a provider that is not registered.
    UnknownProvider,
}

/// `groups` lists the keys of `owners` grouped by provider: each provider
/// appears once, every group is non-empty and holds only keys of its provider,
/// each once, and every key is listed.
pub open spec fn is_grouping(owners: Map<Seq<u8>, Seq<u8>>, groups: Seq<(Vec<u8>, Vec<VerifyingKey>)>) -> bool {
    &&& forall|a: int, b: int|
        0 <= a < b < groups.len() ==> (#[trigger] groups[a]).0@ != (#[trigger] groups[b]).0@
    &&& forall|g: int| 0 <= g < groups.len() ==> (#[trigger] groups[g]).1@.len() > 0
    &&& forall|g: int, a: int, b: int|
        0 <= g < groups.len() && 0 <= a < b < groups[g].1@.len() ==> (#[trigger] groups[g].1@[a])@
            != (#[trigger] groups[g].1@[b])@
    &&& forall|g: int, j: int|
        0 <= g < groups.len() && 0 <= j < groups[g].1@.len() ==> owners.contains_key((#[trigger] groups[g].1@[j])@)
            && owners[groups[g].1@[j]@] == groups[g].0@
    &&& forall|k: Seq<u8>|
        #[trigger] owners.contains_key(k) ==> exists|g: int, j: int|
            0 <= g < groups.len() && 0 <= j < groups[g].1@.len() && (#[trigger] groups[g].1@[j])@ == k
}

/// The ledger's storage.
pub struct GossamerStorage {
    providers: Vec<Vec<u8>>,
    keys: Vec<(VerifyingKey, Vec<u8>)>,
    messages: Vec<(Vec<u8>, wire::SignedMessage)>,
    provider_index: Ghost<Map<Seq<u8>, int>>,
    key_index: Ghost<Map<Seq<u8>, int>>,
}

impl GossamerStorage {
    /// The registered providers.
    pub closed spec fn providers(&self) -> Set<Seq<u8>> {
        self.provider_index@.dom()
    }

    /// The provider each registered public key belongs to.
    pub closed spec fn owners(&self) -> Map<Seq<u8>, Seq<u8>> {
        Map::new(
            |k: Seq<u8>| self.key_index@.dom().contains(k),
            |k: Seq<u8>| self.keys@[self.key_index@[k]].1@,
        )
    }

    /// The audit log: each accepted message with its provider, oldest first.
    pub closed spec fn log(&self) -> Seq<(Seq<u8>, wire::SignedMessage)> {
        self.messages@.map_values(|e: (Vec<u8>, wire::SignedMessage)| (e.0@, e.1))
    }

    /// The store's invariant.
    pub closed spec fn wf(&self) -> bool {
        &&& forall|p: Seq<u8>|
            #![trigger self.provider_index@[p]]
            self.provider_index@.dom().contains(p) ==> 0 <= self.provider_index@[p] < self.providers@.len()
                && self.providers@[self.provider_index@[p]]@ == p
        &&& forall|i: int|
            #![trigger self.providers@[i]]
            0 <= i < self.providers@.len() ==> self.provider_index@.dom().contains(self.providers@[i]@)
        &&& forall|k: Seq<u8>|
            #![trigger self.key_index@[k]]
            self.key_index@.dom().contains(k) ==> 0 <= self.key_index@[k] < self.keys@.len()
                && self.keys@[self.key_index@[k]].0@ == k
                && self.provider_index@.dom().contains(self.keys@[self.key_index@[k]].1@)
        &&& forall|i: int|
            #![trigger self.keys@[i]]
            0 <= i < self.keys@.len() ==> self.key_index@.dom().contains(self.keys@[i].0@)
                && self.key_index@[self.keys@[i].0@] == i
        &&& forall|i: int|
            #![trigger self.messages@[i]]
            0 <= i < self.messages@.len() ==> self.provider_index@.dom().contains(self.messages@[i].0@)
    }

    /// Every key belongs to a registered provider.
    pub proof fn lemma_owner_registered(&self, k: Seq<u8>)
        requires
            self.wf(),
            self.owners().contains_key(k),
        ensures
            self.providers().contains(self.owners()[k]),
    {
        assert(self.key_index@.dom().contains(k));
        assert(0 <= self.key_index@[k] < self.keys@.len());
    }

    /// Every log entry names a registered provider.
    pub proof fn lemma_log_registered(&self, i: int)
        requires
            self.wf(),
            0 <= i < self.log().len(),
        ensures
            self.providers().contains(self.log()[i].0),
    {
        assert(self.log()[i].0 == self.messages@[i].0@);
    }

    /// An empty store.
    pub fn new() -> (res: GossamerStorage)
        ensures
            res.wf(),
            res.providers() == Set::<Seq<u8>>::empty(),
            res.owners() == Map::<Seq<u8>, Seq<u8>>::empty(),
            res.log() == Seq::<(Seq<u8>, wire::SignedMessage)>::empty(),
    {
        let res = GossamerStorage {
            providers: Vec::new(),
            keys: Vec::new(),
            messages: Vec::new(),
            provider_index: Ghost(Map::empty()),
            key_index: Ghost(Map::empty()),
        };
        assert(res.log() =~= Seq::<(Seq<u8>, wire::SignedMessage)>::empty());
        assert(res.owners() =~= Map::<Seq<u8>, Seq<u8>>::empty());
        assert(res.providers() =~= Set::<Seq<u8>>::empty());
        res
    }

    /// Returns `true` if the provider hash has already been registered.
    /// Once registered, providers are permanent.
    pub fn has_provider(&self, provider: &[u8]) -> (res: bool)
        requires
            self.wf(),
        ensures
            res == self.providers().contains(provider@),
    {
        let n = self.providers.len();
        let mut i: usize = 0;
        while i < n
            invariant
                self.wf(),
                n == self.providers@.len(),
                i <= n,
                forall|j: int| 0 <= j < i ==> self.providers@[j]@ != provider@,
            decreases n - i,
        {
            if bytes::bytes_eq(self.providers[i].as_slice(), provider) {
                assert(self.providers@[i as int]@ == provider@);
                assert(self.provider_index@.dom().contains(self.providers@[i as int]@));
                return true;
            }
            i = i + 1;
        }
        proof {
            if self.provider_index@.dom().contains(provider@) {
                let j = self.provider_index@[provider@];
                assert(self.providers@[j]@ == provider@);
            }
        }
        false
    }

    /// The position of `public_key` among the stored keys.
    fn find_key(&self, public_key: &VerifyingKey) -> (res: Option<usize>)
        requires
            self.wf(),
        ensures
            res matches Some(i) ==> i < self.keys@.len() && self.keys@[i as int].0@ == public_key@
                && self.key_index@.dom().contains(public_key@) && self.key_index@[public_key@] == i,
            res is None ==> !self.key_index@.dom().contains(public_key@),
    {
        let n = self.keys.len();
        let mut i: usize = 0;
        while i < n
            invariant
                self.wf(),
                n == self.keys@.len(),
                i <= n,
                forall|j: int| 0 <= j < i ==> self.keys@[j].0@ != public_key@,
            decreases n - i,
        {
            if self.keys[i].0.same_key(public_key) {
                assert(self.keys@[i as int].0@ == public_key@);
                assert(self.key_index@.dom().contains(self.keys@[i as int].0@));
                return Some(i);
            }
            i = i + 1;
        }
        proof {
            if self.key_index@.dom().contains(public_key@) {
                let j = self.key_index@[public_key@];
                assert(self.keys@[j].0@ == public_key@);
            }
        }
        None
    }

    /// Returns `true` if the public key is currently associated with the provider.
    pub fn has_key(&self, provider: &[u8], public_key: &VerifyingKey) -> (res: bool)
        requires
            self.wf(),
        ensures
            res == (self.owners().contains_key(public_key@) && self.owners()[public_key@] == provider@),
    {
        match self.find_key(public_key) {
            Some(i) => bytes::bytes_eq(self.keys[i].1.as_slice(), provider),
            None => false,
        }
    }

    /// Returns the provider hash associated with a public key, if it exists.
    pub fn get_key_provider(&self, public_key: &VerifyingKey) -> (res: Option<Vec<u8>>)
        requires
            self.wf(),
        ensures
            res is Some <==> self.owners().contains_key(public_key@),
            res matches Some(p) ==> p@ == self.owners()[public_key@],
    {
        match self.find_key(public_key) {
            Some(i) => Some(bytes::to_vec(self.keys[i].1.as_slice())),
            None => None,
        }
    }

    /// Atomically registers a provider (if it does not already exist) and
    /// associates a public key with it.
    ///
    /// Returns `true` if the key was added, or `false` if that key is already
    /// registered (for this provider or another one), in which case the key's
    /// owner does not change. A provider can have several keys.
    pub fn append_key(&mut self, provider: &[u8], public_key: &VerifyingKey) -> (res: bool)
        requires
            old(self).wf(),
        ensures
            final(self).wf(),
            res == !old(self).owners().contains_key(public_key@),
            final(self).providers() == old(self).providers().insert(provider@),
            final(self).owners() == (if res {
                old(self).owners().insert(public_key@, provider@)
            } else {
                old(self).owners()
            }),
            final(self).log() == old(self).log(),
    {
        if !self.has_provider(provider) {
            let ghost old_providers = self.providers@;
            let ghost n = self.providers@.len() as int;
            self.providers.push(bytes::to_vec(provider));
            proof {
                let new_index = self.provider_index@.insert(provider@, n);
                assert forall|p: Seq<u8>| #[trigger] new_index.dom().contains(p) implies 0 <= new_index[p]
                    < self.providers@.len() && self.providers@[new_index[p]]@ == p by {
                    if p != provider@ {
                        assert(self.providers@[self.provider_index@[p]] == old_providers[self.provider_index@[p]]);
                    }
                }
                assert forall|i: int| 0 <= i < self.providers@.len() implies new_index.dom().contains(
                    #[trigger] self.providers@[i]@,
                ) by {
                    if i < n {
                        assert(self.providers@[i] == old_providers[i]);
                    }
                }
                self.provider_index@ = new_index;
            }
        } else {
            proof {
                assert(self.provider_index@.dom().insert(provider@) =~= self.provider_index@.dom());
            }
        }
        assert(self.providers() =~= old(self).providers().insert(provider@));
        assert(self.owners() =~= old(self).owners());
        let found = self.find_key(public_key);
        if found.is_some() {
            return false;
        }
        let ghost old_keys = self.keys@;
        let ghost n = self.keys@.len() as int;
        let ghost before = self.owners();
        self.keys.push((*public_key, bytes::to_vec(provider)));
        proof {
            let new_index = self.key_index@.insert(public_key@, n);
            assert forall|k: Seq<u8>| #[trigger] new_index.dom().contains(k) implies 0 <= new_index[k]
                < self.keys@.len() && self.keys@[new_index[k]].0@ == k && self.provider_index@.dom().contains(
                self.keys@[new_index[k]].1@,
            ) by {
                if k != public_key@ {
                    assert(self.keys@[self.key_index@[k]] == old_keys[self.key_index@[k]]);
                } else {
                    assert(self.provider_index@.dom().contains(provider@));
                }
            }
            assert forall|i: int| 0 <= i < self.keys@.len() implies new_index.dom().contains(
                (#[trigger] self.keys@[i]).0@,
            ) && new_index[self.keys@[i].0@] == i by {
                if i < n {
                    assert(self.keys@[i] == old_keys[i]);
                    assert(self.key_index@[old_keys[i].0@] == i);
                }
            }
            self.key_index@ = new_index;
            assert forall|k: Seq<u8>| #[trigger] self.owners().contains_key(k) implies self.owners()[k]
                == before.insert(public_key@, provider@)[k] by {
                if k != public_key@ {
                    assert(self.keys@[self.key_index@[k]] == old_keys[self.key_index@[k]]);
                }
            }
            assert(self.owners() =~= before.insert(public_key@, provider@));
        }
        true
    }

    /// Removes a public key's association with a provider.
    ///
    /// Returns `true` if the key was found for that provider and removed, or
    /// `false` if the provider has no such key. Revoking the last key of a
    /// provider does not unregister the provider.
    pub fn revoke_key(&mut self, provider: &[u8], public_key: &VerifyingKey) -> (res: bool)
        requires
            old(self).wf(),
        ensures
            final(self).wf(),
            res == (old(self).owners().contains_key(public_key@) && old(self).owners()[public_key@] == provider@),
            final(self).providers() == old(self).providers(),
            final(self).owners() == (if res {
                old(self).owners().remove(public_key@)
            } else {
                old(self).owners()
            }),
            final(self).log() == old(self).log(),
    {
        let idx = match self.find_key(public_key) {
            Some(i) => i,
            None => return false,
        };
        if !bytes::bytes_eq(self.keys[idx].1.as_slice(), provider) {
            return false;
        }
        let ghost old_keys = self.keys@;
        let ghost old_index = self.key_index@;
        let ghost before = self.owners();
        let _removed = self.keys.remove(idx);
        proof {
            let r = idx as int;
            let new_index = Map::new(
                |k: Seq<u8>| old_index.dom().contains(k) && k != public_key@,
                |k: Seq<u8>| if old_index[k] > r { old_index[k] - 1 } else { old_index[k] },
            );
            assert forall|k: Seq<u8>| #[trigger] new_index.dom().contains(k) implies 0 <= new_index[k]
                < self.keys@.len() && self.keys@[new_index[k]].0@ == k && self.provider_index@.dom().contains(
                self.keys@[new_index[k]].1@,
            ) by {
                let o = old_index[k];
                assert(old_keys[o].0@ == k);
                assert(o != r);
                if o > r {
                    assert(self.keys@[o - 1] == old_keys[o]);
                } else {
                    assert(self.keys@[o] == old_keys[o]);
                }
            }
            assert forall|i: int| 0 <= i < self.keys@.len() implies new_index.dom().contains(
                (#[trigger] self.keys@[i]).0@,
            ) && new_index[self.keys@[i].0@] == i by {
                if i < r {
                    assert(self.keys@[i] == old_keys[i]);
                    assert(old_index[old_keys[i].0@] == i);
                    assert(old_index[old_keys[r].0@] == r);
                } else {
                    assert(self.keys@[i] == old_keys[i + 1]);
                    assert(old_index[old_keys[i + 1].0@] == i + 1);
                    assert(old_index[old_keys[r].0@] == r);
                }
            }
            self.key_index@ = new_index;
            assert forall|k: Seq<u8>| #[trigger] self.owners().contains_key(k) implies self.owners()[k]
                == before.remove(public_key@)[k] by {
                let o = old_index[k];
                if o > r {
                    assert(self.keys@[o - 1] == old_keys[o]);
                } else {
                    assert(self.keys@[o] == old_keys[o]);
                }
            }
            assert(self.owners() =~= before.remove(public_key@));
        }
        true
    }

    /// Appends a signed message to the audit log under its provider.
    ///
    /// Callers validate the signature and the signer's authority first. The
    /// provider must be registered, as the schema's foreign key demands.
    pub fn append_message(&mut self, provider: &[u8], message: wire::SignedMessage) -> (res: Result<(), StorageError>)
        requires
            old(self).wf(),
        ensures
            final(self).wf(),
            res is Ok <==> old(self).providers().contains(provider@),
            res is Err ==> res == Err::<(), StorageError>(StorageError::UnknownProvider),
            final(self).providers() == old(self).providers(),
            final(self).owners() == old(self).owners(),
            final(self).log() == (if res is Ok {
                old(self).log().push((provider@, message))
            } else {
                old(self).log()
            }),
    {
        if !self.has_provider(provider) {
            return Err(StorageError::UnknownProvider);
        }
        let ghost old_log = self.log();
        let ghost old_messages = self.messages@;
        self.messages.push((bytes::to_vec(provider), message));
        assert forall|i: int| 0 <= i < self.messages@.len() implies self.provider_index@.dom().contains(
            #[trigger] self.messages@[i].0@,
        ) by {
            if i < old_messages.len() {
                assert(self.messages@[i] == old_messages[i]);
            }
        }
        assert(self.log() =~= old_log.push((provider@, message)));
        Ok(())
    }

    /// The whole ledger: every provider that has keys, with its keys.
    ///
    /// Each provider appears once, each group lists only keys of its provider,
    /// and every registered key is listed.
    pub fn get_ledger(&self) -> (res: Vec<(Vec<u8>, Vec<VerifyingKey>)>)
        requires
            self.wf(),
        ensures
            is_grouping(self.owners(), res@),
    {
        let n = self.keys.len();
        let mut groups_p: Vec<Vec<u8>> = Vec::new();
        let mut groups_k: Vec<Vec<VerifyingKey>> = Vec::new();
        let mut i: usize = 0;
        while i < n
            invariant
                self.wf(),
                n == self.keys@.len(),
                i <= n,
                groups_p@.len() == groups_k@.len(),
                forall|a: int, b: int|
                    0 <= a < b < groups_p@.len() ==> #[trigger] groups_p@[a]@ != #[trigger] groups_p@[b]@,
                forall|g: int| 0 <= g < groups_k@.len() ==> (#[trigger] groups_k@[g])@.len() > 0,
                forall|g: int, j: int|
                    0 <= g < groups_k@.len() && 0 <= j < groups_k@[g]@.len() ==> self.key_index@[
                        (#[trigger] groups_k@[g]@[j])@] < i,
                forall|g: int, a: int, b: int|
                    0 <= g < groups_k@.len() && 0 <= a < b < groups_k@[g]@.len() ==> (#[trigger] groups_k@[g]@[a])@
                        != (#[trigger] groups_k@[g]@[b])@,
                forall|g: int, j: int|
                    0 <= g < groups_k@.len() && 0 <= j < groups_k@[g]@.len() ==> self.owners().contains_key(
                        #[trigger] groups_k@[g]@[j]@,
                    ) && self.owners()[groups_k@[g]@[j]@] == groups_p@[g]@,
                forall|m: int|
                    0 <= m < i ==> exists|g: int, j: int|
                        0 <= g < groups_k@.len() && 0 <= j < groups_k@[g]@.len() && #[trigger] groups_k@[g]@[j]@
                            == (#[trigger] self.keys@[m]).0@,
            decreases n - i,
        {
            let key = self.keys[i].0;
            let provider = self.keys[i].1.as_slice();
            proof {
                assert(self.key_index@.dom().contains(self.keys@[i as int].0@));
                assert(self.owners().contains_key(key@));
                assert(self.owners()[key@] == provider@);
            }
            let gn = groups_p.len();
            let mut g: usize = 0;
            let mut found = false;
            while g < gn && !found
                invariant
                    gn == groups_p@.len(),
                    g <= gn,
                    !found ==> forall|h: int| 0 <= h < g ==> groups_p@[h]@ != provider@,
                    found ==> g < gn && groups_p@[g as int]@ == provider@,
                decreases gn - g + (if found { 0int } else { 1int }),
            {
                if bytes::bytes_eq(groups_p[g].as_slice(), provider) {
                    found = true;
                } else {
                    g = g + 1;
                }
            }
            let ghost old_k = groups_k@;
            let ghost old_p = groups_p@;
            if found {
                let mut ks = groups_k.remove(g);
                ks.push(key);
                groups_k.insert(g, ks);
                proof {
                    assert(groups_k@ =~= old_k.update(g as int, ks));
                    assert forall|m: int| 0 <= m < i + 1 implies exists|h: int, j: int|
                        0 <= h < groups_k@.len() && 0 <= j < groups_k@[h]@.len() && #[trigger] groups_k@[h]@[j]@
                            == (#[trigger] self.keys@[m]).0@ by {
                        if m == i {
                            assert(groups_k@[g as int]@[ks@.len() - 1] == key);
                        } else {
                            let (h, j) = choose|h: int, j: int|
                                0 <= h < old_k.len() && 0 <= j < old_k[h]@.len() && #[trigger] old_k[h]@[j]@
                                    == (#[trigger] self.keys@[m]).0@;
                            assert(groups_k@[h]@[j] == old_k[h]@[j]);
                        }
                    }
                }
            } else {
                let mut ks: Vec<VerifyingKey> = Vec::new();
                ks.push(key);
                groups_p.push(crate::bytes::to_vec(provider));
                groups_k.push(ks);
                proof {
                    assert forall|m: int| 0 <= m < i + 1 implies exists|h: int, j: int|
                        0 <= h < groups_k@.len() && 0 <= j < groups_k@[h]@.len() && #[trigger] groups_k@[h]@[j]@
                            == (#[trigger] self.keys@[m]).0@ by {
                        if m == i {
                            assert(groups_k@[old_k.len() as int]@[0] == key);
                        } else {
                            let (h, j) = choose|h: int, j: int|
                                0 <= h < old_k.len() && 0 <= j < old_k[h]@.len() && #[trigger] old_k[h]@[j]@
                                    == (#[trigger] self.keys@[m]).0@;
                            assert(groups_k@[h] == old_k[h]);
                        }
                    }
                    assert forall|a: int, b: int| 0 <= a < b < groups_p@.len() implies #[trigger] groups_p@[a]@
                        != #[trigger] groups_p@[b]@ by {
                        if b == old_p.len() {
                            assert(groups_p@[a] == old_p[a]);
                            assert(groups_p@[b]@ == provider@);
                        } else {
                            assert(groups_p@[a] == old_p[a]);
                            assert(groups_p@[b] == old_p[b]);
                        }
                    }
                }
            }
            i = i + 1;
        }
        proof {
            assert forall|k: Seq<u8>| #[trigger] self.owners().contains_key(k) implies exists|h: int, j: int|
                0 <= h < groups_k@.len() && 0 <= j < groups_k@[h]@.len() && #[trigger] groups_k@[h]@[j]@ == k by {
                let m = self.key_index@[k];
                assert(self.keys@[m].0@ == k);
            }
        }
        let ghost all_p = groups_p@;
        let ghost all_k = groups_k@;
        let gn = groups_p.len();
        let mut res: Vec<(Vec<u8>, Vec<VerifyingKey>)> = Vec::new();
        while groups_p.len() > 0
            invariant
                groups_p@.len() == groups_k@.len(),
                groups_p@.len() + res@.len() == gn,
                gn == all_p.len(),
                gn == all_k.len(),
                groups_p@ == all_p.subrange(0, groups_p@.len() as int),
                groups_k@ == all_k.subrange(0, groups_k@.len() as int),
                forall|t: int|
                    0 <= t < res@.len() ==> (#[trigger] res@[t]).0 == all_p[gn - 1 - t] && res@[t].1 == all_k[gn - 1 - t],
            decreases groups_p@.len(),
        {
            let p = groups_p.pop().unwrap();
            let k = groups_k.pop().unwrap();
            res.push((p, k));
            assert(groups_p@ =~= all_p.subrange(0, groups_p@.len() as int));
            assert(groups_k@ =~= all_k.subrange(0, groups_k@.len() as int));
        }
        proof {
            let owners = self.owners();
            assert forall|a: int, b: int| 0 <= a < b < res@.len() implies (#[trigger] res@[a]).0@
                != (#[trigger] res@[b]).0@ by {
                assert(all_p[gn - 1 - b]@ != all_p[gn - 1 - a]@);
            }
            assert forall|g: int| 0 <= g < res@.len() implies (#[trigger] res@[g]).1@.len() > 0 by {
                assert(all_k[gn - 1 - g]@.len() > 0);
            }
            assert forall|g: int, a: int, b: int|
                0 <= g < res@.len() && 0 <= a < b < res@[g].1@.len() implies (#[trigger] res@[g].1@[a])@
                    != (#[trigger] res@[g].1@[b])@ by {
                assert(res@[g].1 == all_k[gn - 1 - g]);
                assert(all_k[gn - 1 - g]@[a] == res@[g].1@[a]);
                assert(all_k[gn - 1 - g]@[b] == res@[g].1@[b]);
            }
            assert forall|g: int, j: int| 0 <= g < res@.len() && 0 <= j < res@[g].1@.len() implies owners.contains_key(
                (#[trigger] res@[g].1@[j])@,
            ) && owners[res@[g].1@[j]@] == res@[g].0@ by {
                assert(all_k[gn - 1 - g]@[j] == res@[g].1@[j]);
            }
            assert forall|k: Seq<u8>| #[trigger] owners.contains_key(k) implies exists|g: int, j: int|
                0 <= g < res@.len() && 0 <= j < res@[g].1@.len() && (#[trigger] res@[g].1@[j])@ == k by {
                let (h, j) = choose|h: int, j: int|
                    0 <= h < all_k.len() && 0 <= j < all_k[h]@.len() && #[trigger] all_k[h]@[j]@ == k;
                let g = gn - 1 - h;
                assert(res@[g].1 == all_k[h]);
                assert(res@[g].1@[j]@ == k);
            }
        }
        res
    }
}

} // verus!
