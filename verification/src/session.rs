//! The session keys a client shares with its peers: one 32-byte key per peer.
use vstd::prelude::*;

verus! {

/// The keys of a list of (peer, key) entries, the later entry winning.
pub open spec fn session_map(entries: Seq<(String, [u8; 32])>) -> Map<Seq<char>, Seq<u8>>
    decreases entries.len(),
{
    if entries.len() == 0 {
        Map::empty()
    } else {
        session_map(entries.drop_last()).insert(entries.last().0@, entries.last().1@)
    }
}

/// A session key reads back as it was set, and setting or forgetting the key
/// of one peer leaves every other peer's key as it was.
pub proof fn lemma_session_read_after_write(keys: Map<Seq<char>, Seq<u8>>, peer: Seq<char>, key: Seq<u8>, other: Seq<char>)
    requires
        other != peer,
    ensures
        keys.insert(peer, key).contains_key(peer) && keys.insert(peer, key)[peer] == key,
        !keys.remove(peer).contains_key(peer),
        keys.insert(peer, key).contains_key(other) == keys.contains_key(other),
        keys.remove(peer).contains_key(other) == keys.contains_key(other),
        keys.contains_key(other) ==> keys.insert(peer, key)[other] == keys[other] && keys.remove(peer)[other]
            == keys[other],
{
}

/// Why a session key could not be used.
#[derive(Debug, PartialEq, Eq, Structural, Clone, Copy)]
pub enum SessionError {
    /// No session key is held for the peer.
    NotFound,
}

/// The session keys, by peer.
pub struct SessionKeys {
    session_keys: Vec<(String, [u8; 32])>,
}

impl SessionKeys {
    /// The key held for each peer.
    pub closed spec fn keys(&self) -> Map<Seq<char>, Seq<u8>> {
        session_map(self.session_keys@)
    }

    /// No session keys.
    pub fn new() -> (res: SessionKeys)
        ensures
            res.keys() == Map::<Seq<char>, Seq<u8>>::empty(),
    {
        SessionKeys { session_keys: Vec::new() }
    }

    /// Holds `secret_key` as the session key with `recipient_identity`,
    /// replacing any held before.
    pub fn set_session_key(&mut self, recipient_identity: String, secret_key: &[u8; 32])
        ensures
            final(self).keys() == old(self).keys().insert(recipient_identity@, secret_key@),
    {
        self.session_keys.push((recipient_identity, *secret_key));
        assert(self.session_keys@.drop_last() == old(self).session_keys@);
    }

    /// The session key with a peer.
    pub fn get_encryption_key(&self, recipient_identity: &String) -> (res: Result<[u8; 32], SessionError>)
        ensures
            res is Ok <==> self.keys().contains_key(recipient_identity@),
            res matches Ok(k) ==> k@ == self.keys()[recipient_identity@],
            res matches Err(e) ==> e == SessionError::NotFound,
    {
        let mut i: usize = self.session_keys.len();
        assert(self.session_keys@.subrange(0, i as int) =~= self.session_keys@);
        while i > 0
            invariant
                i <= self.session_keys@.len(),
                session_map(self.session_keys@).contains_key(recipient_identity@) == session_map(
                    self.session_keys@.subrange(0, i as int),
                ).contains_key(recipient_identity@),
                session_map(self.session_keys@)[recipient_identity@] == session_map(
                    self.session_keys@.subrange(0, i as int),
                )[recipient_identity@],
            decreases i,
        {
            let ghost sub = self.session_keys@.subrange(0, i as int);
            assert(sub.drop_last() =~= self.session_keys@.subrange(0, i - 1));
            if self.session_keys[i - 1].0 == *recipient_identity {
                return Ok(self.session_keys[i - 1].1);
            }
            i = i - 1;
        }
        Err(SessionError::NotFound)
    }

    /// Forgets the session key with a peer.
    pub fn destroy_session_key(&mut self, peer: &String)
        ensures
            final(self).keys() == old(self).keys().remove(peer@),
    {
        let ghost all = self.session_keys@;
        let mut kept: Vec<(String, [u8; 32])> = Vec::new();
        let n = self.session_keys.len();
        let mut i: usize = 0;
        while i < n
            invariant
                n == self.session_keys@.len(),
                self.session_keys@ == all,
                i <= n,
                session_map(kept@) == session_map(all.subrange(0, i as int)).remove(peer@),
            decreases n - i,
        {
            let ghost before = kept@;
            let ghost sub = all.subrange(0, i + 1);
            assert(sub.drop_last() =~= all.subrange(0, i as int));
            if self.session_keys[i].0 != *peer {
                let entry = (self.session_keys[i].0.clone(), self.session_keys[i].1);
                kept.push(entry);
                assert(kept@.drop_last() == before);
                assert(session_map(kept@) =~= session_map(sub).remove(peer@));
            } else {
                assert(session_map(kept@) =~= session_map(sub).remove(peer@));
            }
            i = i + 1;
        }
        assert(all.subrange(0, n as int) =~= all);
        self.session_keys = kept;
    }
}

} // verus!
