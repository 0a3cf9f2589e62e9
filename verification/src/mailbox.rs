//! The mailbox server's store: registered users with their identity key and
//! signed prekey, the one-time prekeys that others may take, and the queued
//! messages.
//!
//! The store keeps the rules of the server's relational schema: a username is
//! registered once and its identity key never changes; a one-time prekey and a
//! queued message each belong to a registered user; no one-time prekey and no
//! message is stored twice; prekeys are handed out oldest first and each one at
//! most once; a user's messages are handed out in the order they came, once.
use vstd::prelude::*;
use crate::bytes;
use crate::keys::{VerifyingKey, X25519Public};
use crate::proto::service as wire;
use crate::status::{Code, Status};

verus! {

/// A signed prekey by value: the prekey and signature fields.
pub type SpkView = (Option<Seq<u8>>, Option<Seq<u8>>);

/// A queued message by value: its five fields.
pub type MessageView = (Option<Seq<u8>>, Option<Seq<u8>>, Option<Seq<u8>>, Option<Seq<u8>>, Option<Seq<u8>>);

/// The value of a wire signed prekey.
pub open spec fn spk_view(s: wire::SignedPreKey) -> SpkView {
    (wire::opt_bytes(s.pre_key), wire::opt_bytes(s.signature))
}

/// The values of the rows that belong to `id`, in table order.
pub open spec fn rows_of<T>(rows: Seq<(Seq<char>, T)>, id: Seq<char>) -> Seq<T>
    decreases rows.len(),
{
    if rows.len() == 0 {
        Seq::empty()
    } else {
        let rest = rows_of(rows.drop_last(), id);
        if rows.last().0 == id {
            rest.push(rows.last().1)
        } else {
            rest
        }
    }
}

/// The rows that do not belong to `id`, in table order.
pub open spec fn rows_without<T>(rows: Seq<(Seq<char>, T)>, id: Seq<char>) -> Seq<(Seq<char>, T)>
    decreases rows.len(),
{
    if rows.len() == 0 {
        Seq::empty()
    } else {
        let rest = rows_without(rows.drop_last(), id);
        if rows.last().0 == id {
            rest
        } else {
            rest.push(rows.last())
        }
    }
}

/// The values held anywhere in the table.
pub open spec fn table_values<T>(rows: Seq<(Seq<char>, T)>) -> Set<T> {
    Set::new(|v: T| exists|j: int| 0 <= j < rows.len() && (#[trigger] rows[j]).1 == v)
}

/// No value is held twice.
pub open spec fn values_distinct<T>(rows: Seq<(Seq<char>, T)>) -> bool {
    forall|a: int, b: int| 0 <= a < b < rows.len() ==> (#[trigger] rows[a]).1 != (#[trigger] rows[b]).1
}

/// `i` is the position of the oldest row of `id`.
pub open spec fn is_first_row<T>(rows: Seq<(Seq<char>, T)>, id: Seq<char>, i: int) -> bool {
    &&& 0 <= i < rows.len()
    &&& rows[i].0 == id
    &&& forall|j: int| 0 <= j < i ==> (#[trigger] rows[j]).0 != id
}

/// Taking `k` for `id` turned `before` into `after`: `k` was the oldest row of
/// `id`, and that row alone left.
pub open spec fn took_oldest<T>(before: Seq<(Seq<char>, T)>, after: Seq<(Seq<char>, T)>, id: Seq<char>, k: T) -> bool {
    exists|i: int| #[trigger] is_first_row(before, id, i) && before[i].1 == k && after == before.remove(i)
}

/// How many keys of `batch`, from its start, can be inserted one after the
/// other into a table whose keys are `existing`: insertion stops at the first
/// key already there.
pub open spec fn insertable_prefix(existing: Set<Seq<u8>>, batch: Seq<Seq<u8>>) -> nat
    decreases batch.len(),
{
    if batch.len() == 0 {
        0
    } else if existing.contains(batch[0]) {
        0
    } else {
        1 + insertable_prefix(existing.insert(batch[0]), batch.drop_first())
    }
}

/// The rows that inserting `keys` for `id` adds.
pub open spec fn rows_for(id: Seq<char>, keys: Seq<Seq<u8>>) -> Seq<(Seq<char>, Seq<u8>)> {
    keys.map_values(|k: Seq<u8>| (id, k))
}

/// The text of the refusal of an identity key that differs from the registered one.
pub open spec fn already_registered_text(identity: Seq<char>) -> Seq<char> {
    "A user is already registered with username: "@ + identity
}

/// The text of the refusal to update the prekey of an unknown user.
pub open spec fn spk_not_found_text(identity: Seq<char>) -> Seq<char> {
    "pre key for user "@ + identity + " not found"@
}

/// The store.
pub struct SqliteStorage {
    users: Vec<(String, VerifyingKey, wire::SignedPreKey)>,
    pre_keys: Vec<(String, X25519Public)>,
    messages: Vec<(String, wire::Message)>,
    user_index: Ghost<Map<Seq<char>, int>>,
}

/// Copies a wire signed prekey.
fn copy_spk(s: &wire::SignedPreKey) -> (res: wire::SignedPreKey)
    ensures
        spk_view(res) == spk_view(*s),
{
    wire::SignedPreKey { pre_key: copy_field(&s.pre_key), signature: copy_field(&s.signature) }
}

/// Copies an optional bytes field.
fn copy_field(f: &Option<Vec<u8>>) -> (res: Option<Vec<u8>>)
    ensures
        wire::opt_bytes(res) == wire::opt_bytes(*f),
{
    match f {
        Some(v) => Some(bytes::to_vec(v.as_slice())),
        None => None,
    }
}

impl SqliteStorage {
    /// The registered users: each username's identity key and signed prekey.
    pub closed spec fn users(&self) -> Map<Seq<char>, (Seq<u8>, SpkView)> {
        Map::new(
            |id: Seq<char>| self.user_index@.dom().contains(id),
            |id: Seq<char>| (self.users@[self.user_index@[id]].1@, spk_view(self.users@[self.user_index@[id]].2)),
        )
    }

    /// The one-time prekey table, oldest first: each row's owner and key.
    pub closed spec fn opk_rows(&self) -> Seq<(Seq<char>, Seq<u8>)> {
        self.pre_keys@.map_values(|r: (String, X25519Public)| (r.0@, r.1@))
    }

    /// The message table, oldest first: each row's recipient and message.
    pub closed spec fn message_rows(&self) -> Seq<(Seq<char>, MessageView)> {
        self.messages@.map_values(|r: (String, wire::Message)| (r.0@, wire::message_view(r.1)))
    }

    /// The store's invariant.
    pub closed spec fn wf(&self) -> bool {
        &&& forall|id: Seq<char>|
            #![trigger self.user_index@[id]]
            self.user_index@.dom().contains(id) ==> 0 <= self.user_index@[id] < self.users@.len()
                && self.users@[self.user_index@[id]].0@ == id
        &&& forall|i: int|
            #![trigger self.users@[i]]
            0 <= i < self.users@.len() ==> self.user_index@.dom().contains(self.users@[i].0@)
                && self.user_index@[self.users@[i].0@] == i
        &&& forall|i: int|
            #![trigger self.pre_keys@[i]]
            0 <= i < self.pre_keys@.len() ==> self.user_index@.dom().contains(self.pre_keys@[i].0@)
        &&& forall|i: int|
            #![trigger self.messages@[i]]
            0 <= i < self.messages@.len() ==> self.user_index@.dom().contains(self.messages@[i].0@)
        &&& values_distinct(self.opk_rows())
        &&& values_distinct(self.message_rows())
    }

    /// Every stored one-time prekey and message belongs to a registered user,
    /// and none is stored twice.
    pub proof fn lemma_tables_consistent(&self)
        requires
            self.wf(),
        ensures
            forall|i: int| 0 <= i < self.opk_rows().len() ==> self.users().contains_key(#[trigger] self.opk_rows()[i].0),
            forall|i: int|
                0 <= i < self.message_rows().len() ==> self.users().contains_key(#[trigger] self.message_rows()[i].0),
            values_distinct(self.opk_rows()),
            values_distinct(self.message_rows()),
    {
        assert forall|i: int| 0 <= i < self.opk_rows().len() implies self.users().contains_key(
            #[trigger] self.opk_rows()[i].0,
        ) by {
            assert(self.opk_rows()[i].0 == self.pre_keys@[i].0@);
        }
        assert forall|i: int| 0 <= i < self.message_rows().len() implies self.users().contains_key(
            #[trigger] self.message_rows()[i].0,
        ) by {
            assert(self.message_rows()[i].0 == self.messages@[i].0@);
        }
    }

    /// An empty store.
    pub fn new() -> (res: SqliteStorage)
        ensures
            res.wf(),
            res.users() == Map::<Seq<char>, (Seq<u8>, SpkView)>::empty(),
            res.opk_rows() == Seq::<(Seq<char>, Seq<u8>)>::empty(),
            res.message_rows() == Seq::<(Seq<char>, MessageView)>::empty(),
    {
        let res = SqliteStorage {
            users: Vec::new(),
            pre_keys: Vec::new(),
            messages: Vec::new(),
            user_index: Ghost(Map::empty()),
        };
        assert(res.users() =~= Map::<Seq<char>, (Seq<u8>, SpkView)>::empty());
        assert(res.opk_rows() =~= Seq::<(Seq<char>, Seq<u8>)>::empty());
        assert(res.message_rows() =~= Seq::<(Seq<char>, MessageView)>::empty());
        res
    }

    /// The position of `identity` among the users.
    fn find_user(&self, identity: &String) -> (res: Option<usize>)
        requires
            self.wf(),
        ensures
            res matches Some(i) ==> i < self.users@.len() && self.user_index@.dom().contains(identity@)
                && self.user_index@[identity@] == i,
            res is None ==> !self.user_index@.dom().contains(identity@),
    {
        let n = self.users.len();
        let mut i: usize = 0;
        while i < n
            invariant
                self.wf(),
                n == self.users@.len(),
                i <= n,
                forall|j: int| 0 <= j < i ==> self.users@[j].0@ != identity@,
            decreases n - i,
        {
            if self.users[i].0 == *identity {
                assert(self.users@[i as int].0@ == identity@);
                return Some(i);
            }
            i = i + 1;
        }
        proof {
            if self.user_index@.dom().contains(identity@) {
                let j = self.user_index@[identity@];
                assert(self.users@[j].0@ == identity@);
            }
        }
        None
    }

    /// Adds a new user.
    ///
    /// Registering a username again with the same identity key succeeds and
    /// replaces its signed prekey; with another identity key it is refused as
    /// `AlreadyExists` and changes nothing.
    pub fn register_user(&mut self, identity: String, ik: VerifyingKey, spk: wire::SignedPreKey) -> (res: Result<(), Status>)
        requires
            old(self).wf(),
        ensures
            final(self).wf(),
            final(self).opk_rows() == old(self).opk_rows(),
            final(self).message_rows() == old(self).message_rows(),
            !old(self).users().contains_key(identity@) ==> res is Ok && final(self).users() == old(self).users().insert(
                identity@,
                (ik@, spk_view(spk)),
            ),
            old(self).users().contains_key(identity@) ==> (res is Ok <==> old(self).users()[identity@].0 == ik@),
            res is Ok ==> final(self).users() == old(self).users().insert(identity@, (ik@, spk_view(spk))),
            res is Err ==> final(self).users() == old(self).users(),
            res matches Err(s) ==> s.code == Code::AlreadyExists && s.message@ == already_registered_text(identity@),
    {
        match self.find_user(&identity) {
            Some(i) => {
                if self.users[i].1.same_key(&ik) {
                    let r = self.update_spk(identity, spk);
                    assert(r is Ok);
                    Ok(())
                } else {
                    Err(Status::with_detail(
                        Code::AlreadyExists,
                        "A user is already registered with username: ",
                        identity.as_str(),
                    ))
                }
            },
            None => {
                let ghost old_users = self.users@;
                let ghost before = self.users();
                let ghost n = self.users@.len() as int;
                let ghost id = identity@;
                let ghost sv = spk_view(spk);
                let ghost kv = ik@;
                self.users.push((identity, ik, spk));
                proof {
                    let new_index = self.user_index@.insert(id, n);
                    assert forall|u: Seq<char>| #[trigger] new_index.dom().contains(u) implies 0 <= new_index[u]
                        < self.users@.len() && self.users@[new_index[u]].0@ == u by {
                        if u != id {
                            assert(self.users@[self.user_index@[u]] == old_users[self.user_index@[u]]);
                        }
                    }
                    assert forall|i: int| 0 <= i < self.users@.len() implies new_index.dom().contains(
                        (#[trigger] self.users@[i]).0@,
                    ) && new_index[self.users@[i].0@] == i by {
                        if i < n {
                            assert(self.users@[i] == old_users[i]);
                            assert(self.user_index@[old_users[i].0@] == i);
                        }
                    }
                    self.user_index@ = new_index;
                    assert forall|u: Seq<char>| #[trigger] self.users().contains_key(u) implies self.users()[u]
                        == before.insert(id, (kv, sv))[u] by {
                        if u != id {
                            assert(self.users@[self.user_index@[u]] == old_users[self.user_index@[u]]);
                        }
                    }
                    assert(self.users() =~= before.insert(id, (kv, sv)));
                }
                Ok(())
            },
        }
    }

    /// Replaces the signed prekey of a registered user.
    pub fn update_spk(&mut self, identity: String, spk: wire::SignedPreKey) -> (res: Result<(), Status>)
        requires
            old(self).wf(),
        ensures
            final(self).wf(),
            res is Ok <==> old(self).users().contains_key(identity@),
            res is Ok ==> final(self).users() == old(self).users().insert(
                identity@,
                (old(self).users()[identity@].0, spk_view(spk)),
            ),
            res matches Err(s) ==> s.code == Code::NotFound && s.message@ == spk_not_found_text(identity@)
                && final(self).users() == old(self).users(),
            final(self).opk_rows() == old(self).opk_rows(),
            final(self).message_rows() == old(self).message_rows(),
    {
        match self.find_user(&identity) {
            Some(i) => {
                let ghost old_users = self.users@;
                let ghost before = self.users();
                let ghost id = identity@;
                let ghost sv = spk_view(spk);
                let ik = self.users[i].1;
                self.users.set(i, (identity, ik, spk));
                proof {
                    assert forall|u: Seq<char>| #[trigger] self.user_index@.dom().contains(u) implies 0
                        <= self.user_index@[u] < self.users@.len() && self.users@[self.user_index@[u]].0@ == u by {
                        if u != id {
                            assert(self.users@[self.user_index@[u]] == old_users[self.user_index@[u]]);
                        }
                    }
                    assert forall|j: int| 0 <= j < self.users@.len() implies self.user_index@.dom().contains(
                        (#[trigger] self.users@[j]).0@,
                    ) && self.user_index@[self.users@[j].0@] == j by {
                        if j != i {
                            assert(self.users@[j] == old_users[j]);
                        }
                    }
                    assert forall|u: Seq<char>| #[trigger] self.users().contains_key(u) implies self.users()[u]
                        == before.insert(id, (before[id].0, sv))[u] by {
                        if u != id {
                            assert(self.users@[self.user_index@[u]] == old_users[self.user_index@[u]]);
                        }
                    }
                    assert(self.users() =~= before.insert(id, (before[id].0, sv)));
                }
                Ok(())
            },
            None => {
                let mut text = "pre key for user ".to_owned();
                text.append(identity.as_str());
                text.append(" not found");
                Err(Status { code: Code::NotFound, message: text })
            },
        }
    }

    /// Whether `key` is in the one-time prekey table.
    fn has_opk(&self, key: &X25519Public) -> (res: bool)
        requires
            self.wf(),
        ensures
            res == table_values(self.opk_rows()).contains(key@),
    {
        let n = self.pre_keys.len();
        let mut i: usize = 0;
        while i < n
            invariant
                n == self.pre_keys@.len(),
                i <= n,
                forall|j: int| 0 <= j < i ==> self.pre_keys@[j].1@ != key@,
            decreases n - i,
        {
            if bytes::bytes_eq(&self.pre_keys[i].1, key) {
                assert(self.opk_rows()[i as int].1 == key@);
                return true;
            }
            i = i + 1;
        }
        proof {
            if table_values(self.opk_rows()).contains(key@) {
                let j = choose|j: int| 0 <= j < self.opk_rows().len() && (#[trigger] self.opk_rows()[j]).1 == key@;
                assert(self.opk_rows()[j].1 == self.pre_keys@[j].1@);
            }
        }
        false
    }

    /// Appends one-time prekeys for a registered user, in order.
    ///
    /// The keys go in one after the other; the first one that is already in
    /// the table (for any user) stops the insertion with an `Internal` error,
    /// and the keys before it stay. An unknown user gets the same error and
    /// nothing is added.
    pub fn add_opks(&mut self, identity: String, opks: Vec<X25519Public>) -> (res: Result<(), Status>)
        requires
            old(self).wf(),
        ensures
            final(self).wf(),
            final(self).users() == old(self).users(),
            final(self).message_rows() == old(self).message_rows(),
            ({
                let batch = opks@.map_values(|k: X25519Public| k@);
                let p = insertable_prefix(table_values(old(self).opk_rows()), batch);
                if old(self).users().contains_key(identity@) {
                    &&& final(self).opk_rows() == old(self).opk_rows() + rows_for(identity@, batch.take(p as int))
                    &&& (res is Ok <==> p == batch.len())
                } else {
                    &&& final(self).opk_rows() == old(self).opk_rows()
                    &&& res is Err
                }
            }),
            res matches Err(s) ==> s.code == Code::Internal && s.message@ == "failed to insert one time key"@,
    {
        let ghost batch = opks@.map_values(|k: X25519Public| k@);
        if self.find_user(&identity).is_none() {
            return Err(Status::new(Code::Internal, "failed to insert one time key"));
        }
        let ghost start = self.opk_rows();
        let ghost p = insertable_prefix(table_values(start), batch);
        let n = opks.len();
        let mut i: usize = 0;
        assert(batch.skip(0) =~= batch);
        assert(batch.take(0) =~= Seq::<Seq<u8>>::empty());
        assert(start + rows_for(identity@, batch.take(0)) =~= start);
        while i < n
            invariant
                self.wf(),
                self.user_index@.dom().contains(identity@),
                start == old(self).opk_rows(),
                p == insertable_prefix(table_values(start), batch),
                n == opks@.len(),
                batch == opks@.map_values(|k: X25519Public| k@),
                i <= n,
                i <= p,
                p == i + insertable_prefix(table_values(self.opk_rows()), batch.skip(i as int)),
                self.opk_rows() == start + rows_for(identity@, batch.take(i as int)),
                self.users() == old(self).users(),
                self.message_rows() == old(self).message_rows(),
            decreases n - i,
        {
            let key = opks[i];
            proof {
                let rest = batch.skip(i as int);
                assert(rest[0] == key@);
                assert(rest.drop_first() =~= batch.skip(i + 1));
            }
            if self.has_opk(&key) {
                assert(p == i);
                return Err(Status::new(Code::Internal, "failed to insert one time key"));
            }
            let ghost old_rows = self.opk_rows();
            let ghost old_pk = self.pre_keys@;
            self.pre_keys.push((identity.clone(), key));
            proof {
                assert(self.opk_rows() =~= old_rows.push((identity@, key@)));
                assert(table_values(self.opk_rows()) =~= table_values(old_rows).insert(key@)) by {
                    assert forall|v: Seq<u8>| table_values(old_rows).insert(key@).contains(v) implies table_values(
                        self.opk_rows(),
                    ).contains(v) by {
                        if v == key@ {
                            assert(self.opk_rows()[old_rows.len() as int].1 == v);
                        } else {
                            let j = choose|j: int| 0 <= j < old_rows.len() && (#[trigger] old_rows[j]).1 == v;
                            assert(self.opk_rows()[j] == old_rows[j]);
                        }
                    }
                    assert forall|v: Seq<u8>| table_values(self.opk_rows()).contains(v) implies table_values(
                        old_rows,
                    ).insert(key@).contains(v) by {
                        let j = choose|j: int| 0 <= j < self.opk_rows().len() && (#[trigger] self.opk_rows()[j]).1 == v;
                        if j < old_rows.len() {
                            assert(self.opk_rows()[j] == old_rows[j]);
                        }
                    }
                }
                assert(batch.take(i + 1) =~= batch.take(i as int).push(key@));
                assert(rows_for(identity@, batch.take(i + 1)) =~= rows_for(identity@, batch.take(i as int)).push(
                    (identity@, key@),
                ));
                assert(self.opk_rows() =~= start + rows_for(identity@, batch.take(i + 1)));
                assert forall|j: int| 0 <= j < self.pre_keys@.len() implies self.user_index@.dom().contains(
                    (#[trigger] self.pre_keys@[j]).0@,
                ) by {
                    if j < old_pk.len() {
                        assert(self.pre_keys@[j] == old_pk[j]);
                    }
                }
                assert forall|a: int, b: int| 0 <= a < b < self.opk_rows().len() implies (#[trigger] self.opk_rows()[a]).1
                    != (#[trigger] self.opk_rows()[b]).1 by {
                    if b == old_rows.len() {
                        assert(self.opk_rows()[a] == old_rows[a]);
                        assert(table_values(old_rows).contains(old_rows[a].1));
                    } else {
                        assert(self.opk_rows()[a] == old_rows[a]);
                        assert(self.opk_rows()[b] == old_rows[b]);
                    }
                }
            }
            i = i + 1;
        }
        proof {
            assert(batch.take(n as int) =~= batch);
            assert(batch.skip(n as int).len() == 0);
        }
        Ok(())
    }

    /// The identity key and signed prekey of a registered user.
    pub fn get_current_keys(&self, identity: String) -> (res: Result<(VerifyingKey, wire::SignedPreKey), Status>)
        requires
            self.wf(),
        ensures
            res is Ok <==> self.users().contains_key(identity@),
            res matches Ok(keys) ==> (keys.0@, spk_view(keys.1)) == self.users()[identity@],
            res matches Err(s) ==> s.code == Code::NotFound && s.message@ == "user not found"@,
    {
        match self.find_user(&identity) {
            Some(i) => Ok((self.users[i].1, copy_spk(&self.users[i].2))),
            None => Err(Status::new(Code::NotFound, "user not found")),
        }
    }

    /// Takes the oldest one-time prekey of a user, if it has one. The key
    /// leaves the table, so it is never handed out again.
    pub fn pop_opk(&mut self, identity: String) -> (res: Result<Option<X25519Public>, Status>)
        requires
            old(self).wf(),
        ensures
            final(self).wf(),
            final(self).users() == old(self).users(),
            final(self).message_rows() == old(self).message_rows(),
            res matches Ok(None) ==> rows_of(old(self).opk_rows(), identity@).len() == 0
                && final(self).opk_rows() == old(self).opk_rows(),
            res matches Ok(Some(k)) ==> took_oldest(old(self).opk_rows(), final(self).opk_rows(), identity@, k@),
            res is Ok,
    {
        let n = self.pre_keys.len();
        let mut i: usize = 0;
        while i < n
            invariant
                self.wf(),
                *self == *old(self),
                n == self.pre_keys@.len(),
                i <= n,
                forall|j: int| 0 <= j < i ==> (#[trigger] self.opk_rows()[j]).0 != identity@,
            decreases n - i,
        {
            if self.pre_keys[i].0 == identity {
                let ghost old_rows = self.opk_rows();
                let ghost old_pk = self.pre_keys@;
                let (_, key) = self.pre_keys.remove(i);
                proof {
                    assert(old_rows[i as int].0 == identity@);
                    assert(is_first_row(old_rows, identity@, i as int));
                    assert(self.opk_rows() =~= old_rows.remove(i as int));
                    assert forall|j: int| 0 <= j < self.pre_keys@.len() implies self.user_index@.dom().contains(
                        (#[trigger] self.pre_keys@[j]).0@,
                    ) by {
                        if j < i {
                            assert(self.pre_keys@[j] == old_pk[j]);
                        } else {
                            assert(self.pre_keys@[j] == old_pk[j + 1]);
                        }
                    }
                    assert forall|a: int, b: int| 0 <= a < b < self.opk_rows().len() implies (#[trigger] self.opk_rows()[a]).1
                        != (#[trigger] self.opk_rows()[b]).1 by {
                        let a2 = if a < i { a } else { a + 1 };
                        let b2 = if b < i { b } else { b + 1 };
                        assert(self.opk_rows()[a] == old_rows[a2]);
                        assert(self.opk_rows()[b] == old_rows[b2]);
                    }
                }
                return Ok(Some(key));
            }
            assert(self.opk_rows()[i as int].0 == self.pre_keys@[i as int].0@);
            i = i + 1;
        }
        proof {
            lemma_rows_of_absent(self.opk_rows(), identity@);
        }
        Ok(None)
    }

    /// Whether an equal message is queued already (for anyone).
    fn has_message(&self, message: &wire::Message) -> (res: bool)
        requires
            self.wf(),
        ensures
            res == table_values(self.message_rows()).contains(wire::message_view(*message)),
    {
        let n = self.messages.len();
        let mut i: usize = 0;
        while i < n
            invariant
                n == self.messages@.len(),
                i <= n,
                forall|j: int| 0 <= j < i ==> wire::message_view(self.messages@[j].1) != wire::message_view(*message),
            decreases n - i,
        {
            if wire::same_message(&self.messages[i].1, message) {
                assert(self.message_rows()[i as int].1 == wire::message_view(*message));
                return true;
            }
            i = i + 1;
        }
        proof {
            if table_values(self.message_rows()).contains(wire::message_view(*message)) {
                let j = choose|j: int|
                    0 <= j < self.message_rows().len() && (#[trigger] self.message_rows()[j]).1 == wire::message_view(
                        *message,
                    );
                assert(self.message_rows()[j].1 == wire::message_view(self.messages@[j].1));
            }
        }
        false
    }

    /// Queues a message for a registered recipient.
    ///
    /// A message equal to one already queued (for anyone) is refused, as is a
    /// recipient that is not registered; both are answered `NotFound`.
    pub fn add_message(&mut self, recipient: String, message: wire::Message) -> (res: Result<(), Status>)
        requires
            old(self).wf(),
        ensures
            final(self).wf(),
            final(self).users() == old(self).users(),
            final(self).opk_rows() == old(self).opk_rows(),
            res is Ok <==> old(self).users().contains_key(recipient@) && !table_values(old(self).message_rows()).contains(
                wire::message_view(message),
            ),
            res is Ok ==> final(self).message_rows() == old(self).message_rows().push(
                (recipient@, wire::message_view(message)),
            ),
            res is Err ==> final(self).message_rows() == old(self).message_rows(),
            res matches Err(s) ==> s.code == Code::NotFound && (if table_values(old(self).message_rows()).contains(
                wire::message_view(message),
            ) {
                s.message@ == "Cannot enqueue message for unknown user: UNIQUE constraint failed: message.message"@
            } else {
                s.message@ == "Cannot enqueue message for unknown user: FOREIGN KEY constraint failed"@
            }),
    {
        if self.has_message(&message) {
            return Err(Status::new(
                Code::NotFound,
                "Cannot enqueue message for unknown user: UNIQUE constraint failed: message.message",
            ));
        }
        if self.find_user(&recipient).is_none() {
            return Err(Status::new(
                Code::NotFound,
                "Cannot enqueue message for unknown user: FOREIGN KEY constraint failed",
            ));
        }
        let ghost old_rows = self.message_rows();
        let ghost old_ms = self.messages@;
        let ghost mv = wire::message_view(message);
        self.messages.push((recipient, message));
        proof {
            assert(self.message_rows() =~= old_rows.push((recipient@, mv)));
            assert forall|j: int| 0 <= j < self.messages@.len() implies self.user_index@.dom().contains(
                (#[trigger] self.messages@[j]).0@,
            ) by {
                if j < old_ms.len() {
                    assert(self.messages@[j] == old_ms[j]);
                }
            }
            assert forall|a: int, b: int| 0 <= a < b < self.message_rows().len() implies (#[trigger] self.message_rows()[a]).1
                != (#[trigger] self.message_rows()[b]).1 by {
                assert(self.message_rows()[a] == old_rows[a]);
                if b == old_rows.len() {
                    assert(table_values(old_rows).contains(old_rows[a].1));
                } else {
                    assert(self.message_rows()[b] == old_rows[b]);
                }
            }
        }
        Ok(())
    }

    /// Takes every queued message of a user, oldest first; they leave the table.
    pub fn get_messages(&mut self, identity: String) -> (res: Result<Vec<wire::Message>, Status>)
        requires
            old(self).wf(),
        ensures
            final(self).wf(),
            final(self).users() == old(self).users(),
            final(self).opk_rows() == old(self).opk_rows(),
            res matches Ok(ms) && ms@.map_values(|m: wire::Message| wire::message_view(m)) == rows_of(
                old(self).message_rows(),
                identity@,
            ),
            final(self).message_rows() == rows_without(old(self).message_rows(), identity@),
    {
        let ghost all = self.message_rows();
        let ghost all_ms = self.messages@;
        let mut taken: Vec<wire::Message> = Vec::new();
        let mut kept: Vec<(String, wire::Message)> = Vec::new();
        let n = self.messages.len();
        let mut i: usize = 0;
        assert forall|t: int| 0 <= t < n implies self.user_index@.dom().contains(#[trigger] all_ms[t].0@) by {
            assert(self.messages@[t] == all_ms[t]);
        }
        assert(all.subrange(0, 0) =~= Seq::<(Seq<char>, MessageView)>::empty());
        assert(taken@.map_values(|m: wire::Message| wire::message_view(m)) =~= Seq::<MessageView>::empty());
        assert(kept@.map_values(|r: (String, wire::Message)| (r.0@, wire::message_view(r.1))) =~= Seq::<(Seq<char>, MessageView)>::empty());
        while self.messages.len() > 0
            invariant
                self.users@ == old(self).users@,
                self.pre_keys@ == old(self).pre_keys@,
                self.user_index@ == old(self).user_index@,
                forall|t: int| 0 <= t < n ==> self.user_index@.dom().contains(#[trigger] all_ms[t].0@),
                n == all.len(),
                all_ms.len() == n,
                all == all_ms.map_values(|r: (String, wire::Message)| (r.0@, wire::message_view(r.1))),
                i <= n,
                i + self.messages@.len() == n,
                self.messages@ == all_ms.subrange(i as int, n as int),
                taken@.map_values(|m: wire::Message| wire::message_view(m)) == rows_of(
                    all.subrange(0, i as int),
                    identity@,
                ),
                kept@.map_values(|r: (String, wire::Message)| (r.0@, wire::message_view(r.1))) == rows_without(
                    all.subrange(0, i as int),
                    identity@,
                ),
                forall|j: int| 0 <= j < kept@.len() ==> exists|t: int| 0 <= t < i && (#[trigger] kept@[j]) == all_ms[t],
            decreases self.messages@.len(),
        {
            let ghost before_taken = taken@;
            let ghost before_kept = kept@;
            let row = self.messages.remove(0);
            proof {
                assert(row == all_ms[i as int]);
                assert(all.subrange(0, i + 1).drop_last() =~= all.subrange(0, i as int));
                assert(all.subrange(0, i + 1).last() == (row.0@, wire::message_view(row.1)));
                assert(self.messages@ =~= all_ms.subrange(i + 1, n as int));
            }
            if row.0 == identity {
                taken.push(row.1);
                proof {
                    assert(taken@.map_values(|m: wire::Message| wire::message_view(m)) =~= before_taken.map_values(
                        |m: wire::Message| wire::message_view(m),
                    ).push(wire::message_view(row.1)));
                }
            } else {
                kept.push(row);
                proof {
                    assert(kept@.map_values(|r: (String, wire::Message)| (r.0@, wire::message_view(r.1)))
                        =~= before_kept.map_values(|r: (String, wire::Message)| (r.0@, wire::message_view(r.1))).push(
                        (row.0@, wire::message_view(row.1)),
                    ));
                    assert forall|j: int| 0 <= j < kept@.len() implies exists|t: int|
                        0 <= t < i + 1 && (#[trigger] kept@[j]) == all_ms[t] by {
                        if j == before_kept.len() {
                            assert(kept@[j] == all_ms[i as int]);
                        } else {
                            assert(kept@[j] == before_kept[j]);
                        }
                    }
                }
            }
            i = i + 1;
        }
        proof {
            assert(all.subrange(0, n as int) =~= all);
        }
        let ghost old_self_rows = all;
        self.messages = kept;
        proof {
            assert(self.message_rows() == rows_without(all, identity@));
            assert forall|j: int| 0 <= j < self.messages@.len() implies self.user_index@.dom().contains(
                (#[trigger] self.messages@[j]).0@,
            ) by {
                let t = choose|t: int| 0 <= t < n && self.messages@[j] == all_ms[t];
                assert(self.user_index@.dom().contains(all_ms[t].0@));
            }
            lemma_rows_without_distinct(all, identity@);
        }
        Ok(taken)
    }

    /// How many one-time prekeys a user has left; a count beyond `u32` cannot
    /// be answered and is an `Internal` error.
    pub fn get_one_time_prekey_count(&self, identity: String) -> (res: Result<u32, Status>)
        requires
            self.wf(),
        ensures
            res is Ok <==> rows_of(self.opk_rows(), identity@).len() <= u32::MAX,
            res matches Ok(c) ==> c == rows_of(self.opk_rows(), identity@).len(),
            res matches Err(s) ==> s.code == Code::Internal && s.message@ == "Failed to query opk count."@,
    {
        let ghost rows = self.opk_rows();
        let n = self.pre_keys.len();
        let mut count: usize = 0;
        let mut i: usize = 0;
        while i < n
            invariant
                rows == self.opk_rows(),
                n == self.pre_keys@.len(),
                n == rows.len(),
                i <= n,
                count <= i,
                count == rows_of(rows.subrange(0, i as int), identity@).len(),
            decreases n - i,
        {
            proof {
                assert(rows.subrange(0, i + 1).drop_last() =~= rows.subrange(0, i as int));
                assert(rows[i as int].0 == self.pre_keys@[i as int].0@);
            }
            if self.pre_keys[i].0 == identity {
                count = count + 1;
            }
            i = i + 1;
        }
        proof {
            assert(rows.subrange(0, n as int) =~= rows);
        }
        if count > 4294967295 {
            return Err(Status::new(Code::Internal, "Failed to query opk count."));
        }
        Ok(count as u32)
    }
}

/// The values of `id` after rows of `id` holding `keys` are appended: the
/// values before, then `keys`.
proof fn lemma_rows_of_append(rows: Seq<(Seq<char>, Seq<u8>)>, id: Seq<char>, keys: Seq<Seq<u8>>)
    ensures
        rows_of(rows + rows_for(id, keys), id) == rows_of(rows, id) + keys,
    decreases keys.len(),
{
    if keys.len() == 0 {
        assert(rows + rows_for(id, keys) =~= rows);
        assert(rows_of(rows, id) + keys =~= rows_of(rows, id));
    } else {
        let init = keys.drop_last();
        lemma_rows_of_append(rows, id, init);
        let all = rows + rows_for(id, keys);
        assert(all.drop_last() =~= rows + rows_for(id, init));
        assert(all.last() == (id, keys.last()));
        assert(rows_of(rows, id) + keys =~= (rows_of(rows, id) + init).push(keys.last()));
    }
}

/// After `keys` are added for `id` to the one-time prekey table `before`, in
/// order, successive takes of `id`'s keys hand out first the keys `id` held
/// before and then `keys`, oldest first, each once; after all of them are
/// taken none of `id`'s keys is left.
pub proof fn lemma_pops_after_add(
    before: Seq<(Seq<char>, Seq<u8>)>,
    id: Seq<char>,
    keys: Seq<Seq<u8>>,
    states: Seq<Seq<(Seq<char>, Seq<u8>)>>,
    taken: Seq<Seq<u8>>,
)
    requires
        states.len() == taken.len() + 1,
        states[0] == before + rows_for(id, keys),
        forall|j: int| 0 <= j < taken.len() ==> took_oldest(#[trigger] states[j], states[j + 1], id, taken[j]),
    ensures
        taken.len() <= rows_of(before, id).len() + keys.len(),
        taken == (rows_of(before, id) + keys).take(taken.len() as int),
        rows_of(states[taken.len() as int], id) == (rows_of(before, id) + keys).skip(taken.len() as int),
        taken.len() == rows_of(before, id).len() + keys.len() ==> rows_of(states[taken.len() as int], id).len() == 0,
{
    lemma_rows_of_append(before, id, keys);
    lemma_successive_pops(states, taken, id);
}

/// Removing the oldest row of `id` takes the first of `id`'s values and
/// leaves the rest of them in order; every other owner's values stay.
proof fn lemma_remove_first_row<T>(rows: Seq<(Seq<char>, T)>, id: Seq<char>, i: int)
    requires
        is_first_row(rows, id, i),
    ensures
        rows_of(rows, id).len() > 0,
        rows_of(rows, id)[0] == rows[i].1,
        rows_of(rows.remove(i), id) == rows_of(rows, id).drop_first(),
        forall|other: Seq<char>| other != id ==> #[trigger] rows_of(rows.remove(i), other) == rows_of(rows, other),
    decreases rows.len(),
{
    let d = rows.drop_last();
    if i == rows.len() - 1 {
        assert(rows.remove(i) =~= d);
        assert forall|j: int| 0 <= j < d.len() implies (#[trigger] d[j]).0 != id by {
            assert(d[j] == rows[j]);
        }
        lemma_rows_of_absent(d, id);
        assert(rows_of(rows, id) =~= seq![rows[i].1]);
        assert(rows_of(rows, id).drop_first() =~= rows_of(d, id));
    } else {
        assert(d[i] == rows[i]);
        assert forall|j: int| 0 <= j < i implies (#[trigger] d[j]).0 != id by {
            assert(d[j] == rows[j]);
        }
        lemma_remove_first_row(d, id, i);
        let r = rows.remove(i);
        assert(r.drop_last() =~= d.remove(i));
        assert(r.last() == rows.last());
        lemma_rows_of_present(d, id, i);
        if rows.last().0 == id {
            assert(rows_of(rows, id).drop_first() =~= rows_of(d, id).drop_first().push(rows.last().1));
        }
        assert(rows_of(r, id) =~= rows_of(rows, id).drop_first());
        assert forall|other: Seq<char>| other != id implies #[trigger] rows_of(r, other) == rows_of(rows, other) by {
            assert(rows_of(d.remove(i), other) == rows_of(d, other));
        }
    }
}

/// Taking the oldest one-time prekey of `id` hands out `id`'s first key and
/// leaves `id`'s other keys in order; every other user's keys stay as they were.
pub proof fn lemma_pop_takes_first<T>(before: Seq<(Seq<char>, T)>, after: Seq<(Seq<char>, T)>, id: Seq<char>, k: T)
    requires
        took_oldest(before, after, id, k),
    ensures
        rows_of(before, id).len() > 0,
        rows_of(before, id)[0] == k,
        rows_of(after, id) == rows_of(before, id).drop_first(),
        forall|other: Seq<char>| other != id ==> #[trigger] rows_of(after, other) == rows_of(before, other),
{
    let i = choose|i: int| #[trigger] is_first_row(before, id, i) && before[i].1 == k && after == before.remove(i);
    lemma_remove_first_row(before, id, i);
}

/// Successive takes of `id`'s one-time prekeys, from `states[0]` through
/// `states[n]`, hand out `id`'s first `n` keys in the order they were added,
/// and leave the rest.
pub proof fn lemma_successive_pops<T>(states: Seq<Seq<(Seq<char>, T)>>, keys: Seq<T>, id: Seq<char>)
    requires
        states.len() == keys.len() + 1,
        forall|j: int| 0 <= j < keys.len() ==> took_oldest(#[trigger] states[j], states[j + 1], id, keys[j]),
    ensures
        keys.len() <= rows_of(states[0], id).len(),
        keys == rows_of(states[0], id).take(keys.len() as int),
        rows_of(states[keys.len() as int], id) == rows_of(states[0], id).skip(keys.len() as int),
    decreases keys.len(),
{
    if keys.len() > 0 {
        let n = keys.len() as int;
        let ps = states.drop_last();
        let pk = keys.drop_last();
        assert forall|j: int| 0 <= j < pk.len() implies took_oldest(#[trigger] ps[j], ps[j + 1], id, pk[j]) by {
            assert(ps[j] == states[j] && ps[j + 1] == states[j + 1] && pk[j] == keys[j]);
        }
        lemma_successive_pops(ps, pk, id);
        assert(ps[0] == states[0]);
        assert(ps[n - 1] == states[n - 1]);
        assert(took_oldest(states[n - 1], states[n], id, keys[n - 1]));
        lemma_pop_takes_first(states[n - 1], states[n], id, keys[n - 1]);
        let all = rows_of(states[0], id);
        assert(rows_of(states[n - 1], id) == all.skip(n - 1));
        assert(keys[n - 1] == all[n - 1]);
        assert(keys =~= all.take(n));
        assert(rows_of(states[n], id) =~= all.skip(n));
    } else {
        assert(rows_of(states[0], id).skip(0) =~= rows_of(states[0], id));
    }
}

/// A one-time prekey is handed out at most once: once taken, it is no longer
/// in the table.
pub proof fn lemma_taken_opk_is_gone(
    before: Seq<(Seq<char>, Seq<u8>)>,
    after: Seq<(Seq<char>, Seq<u8>)>,
    id: Seq<char>,
    k: Seq<u8>,
)
    requires
        values_distinct(before),
        took_oldest(before, after, id, k),
    ensures
        !table_values(after).contains(k),
        rows_of(before, id).len() > 0,
{
    let i = choose|i: int| #[trigger] is_first_row(before, id, i) && before[i].1 == k && after == before.remove(i);
    if table_values(after).contains(k) {
        let j = choose|j: int| 0 <= j < after.len() && (#[trigger] after[j]).1 == k;
        if j < i {
            assert(after[j] == before[j]);
        } else {
            assert(after[j] == before[j + 1]);
        }
    }
    lemma_rows_of_present(before, id, i);
}

/// A table with a row of `id` holds a value for it.
pub proof fn lemma_rows_of_present<T>(rows: Seq<(Seq<char>, T)>, id: Seq<char>, i: int)
    requires
        0 <= i < rows.len(),
        rows[i].0 == id,
    ensures
        rows_of(rows, id).len() > 0,
    decreases rows.len(),
{
    if i < rows.len() - 1 {
        let d = rows.drop_last();
        assert(d[i] == rows[i]);
        lemma_rows_of_present(d, id, i);
    }
}

/// Messages are handed out once: after a user's messages are taken, none of
/// theirs is left, and every other user's queue is as it was.
pub proof fn lemma_taken_messages_are_gone<T>(rows: Seq<(Seq<char>, T)>, id: Seq<char>, other: Seq<char>)
    requires
        other != id,
    ensures
        rows_of(rows_without(rows, id), id).len() == 0,
        rows_of(rows_without(rows, id), other) == rows_of(rows, other),
    decreases rows.len(),
{
    if rows.len() > 0 {
        lemma_taken_messages_are_gone(rows.drop_last(), id, other);
        let rest = rows_without(rows.drop_last(), id);
        if rows.last().0 != id {
            assert(rest.push(rows.last()).drop_last() =~= rest);
        }
    }
}

/// A queued message is the newest one its recipient will be handed, behind
/// those queued before it.
pub proof fn lemma_queued_message_is_delivered<T>(rows: Seq<(Seq<char>, T)>, id: Seq<char>, m: T)
    ensures
        rows_of(rows.push((id, m)), id) == rows_of(rows, id).push(m),
{
    assert(rows.push((id, m)).drop_last() =~= rows);
}

/// A table with no row of `id` holds no value for it.
pub proof fn lemma_rows_of_absent<T>(rows: Seq<(Seq<char>, T)>, id: Seq<char>)
    requires
        forall|j: int| 0 <= j < rows.len() ==> (#[trigger] rows[j]).0 != id,
    ensures
        rows_of(rows, id).len() == 0,
    decreases rows.len(),
{
    if rows.len() > 0 {
        let d = rows.drop_last();
        assert forall|j: int| 0 <= j < d.len() implies (#[trigger] d[j]).0 != id by {
            assert(d[j] == rows[j]);
        }
        lemma_rows_of_absent(d, id);
    }
}

/// The rows without `id` are rows of the table, in order, so they keep its
/// values distinct.
pub proof fn lemma_rows_without_distinct<T>(rows: Seq<(Seq<char>, T)>, id: Seq<char>)
    requires
        values_distinct(rows),
    ensures
        values_distinct(rows_without(rows, id)),
        forall|j: int| 0 <= j < rows_without(rows, id).len() ==> exists|t: int|
            0 <= t < rows.len() && #[trigger] rows_without(rows, id)[j] == rows[t],
    decreases rows.len(),
{
    if rows.len() > 0 {
        let d = rows.drop_last();
        assert forall|a: int, b: int| 0 <= a < b < d.len() implies (#[trigger] d[a]).1 != (#[trigger] d[b]).1 by {
            assert(d[a] == rows[a] && d[b] == rows[b]);
        }
        lemma_rows_without_distinct(d, id);
        let rest = rows_without(d, id);
        if rows.last().0 != id {
            let w = rest.push(rows.last());
            assert forall|j: int| 0 <= j < w.len() implies exists|t: int| 0 <= t < rows.len() && #[trigger] w[j]
                == rows[t] by {
                if j == rest.len() {
                    assert(w[j] == rows[rows.len() - 1]);
                } else {
                    let t = choose|t: int| 0 <= t < d.len() && #[trigger] rest[j] == d[t];
                    assert(w[j] == rows[t]);
                }
            }
            assert forall|a: int, b: int| 0 <= a < b < w.len() implies (#[trigger] w[a]).1 != (#[trigger] w[b]).1 by {
                let ta = choose|t: int| 0 <= t < d.len() && #[trigger] rest[a] == d[t];
                if b == rest.len() {
                    assert(w[a] == rows[ta]);
                    assert(w[b] == rows[rows.len() - 1]);
                } else {
                    assert(w[a] == rest[a] && w[b] == rest[b]);
                }
            }
        } else {
            assert forall|j: int| 0 <= j < rest.len() implies exists|t: int| 0 <= t < rows.len() && #[trigger] rest[j]
                == rows[t] by {
                let t = choose|t: int| 0 <= t < d.len() && #[trigger] rest[j] == d[t];
                assert(rest[j] == rows[t]);
            }
        }
    }
}

} // verus!
