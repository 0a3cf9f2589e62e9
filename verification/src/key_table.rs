//! The client's key table: every key pair it holds (identity key, signed
//! prekey, one-time prekeys), by public key, with its type and creation time.
//!
//! The table keeps the rule of its schema: a public key is stored at most
//! once. Inserting a key whose public half is already there fails, and a batch
//! insertion stops at the first such key.
use vstd::prelude::*;
use crate::bundle::{self, create_prekey_bundle, sign_bundle};
use crate::client::ClientError;
use crate::crypto;
use crate::keys::{self, SigningKey, X25519Public, X25519Secret};
use crate::mailbox::insertable_prefix;
use crate::aead;
use crate::proto::{self, service as wire};
use crate::status::Code;
use crate::x3dh::{self, initiate_recv, SignedPreKey, SignedPreKeys};

verus! {

/// What a stored key is for.
#[derive(Debug, PartialEq, Eq, Structural, Clone, Copy)]
pub enum KeyType {
    Identity,
    Pre,
    OneTimePre,
}

/// A stored key by value: public key, private key, type, creation time.
pub type KeyRow = (Seq<u8>, Seq<u8>, KeyType, u64);

/// Why the table refused a write: the public key is stored already.
#[derive(Debug, PartialEq, Eq, Structural, Clone, Copy)]
pub enum KeyTableError {
    DuplicateKey,
}

/// The private key of the first stored key of type `t`, if any.
pub open spec fn first_of(rows: Seq<KeyRow>, t: KeyType) -> Option<Seq<u8>>
    decreases rows.len(),
{
    if rows.len() == 0 {
        None
    } else if rows[0].2 == t {
        Some(rows[0].1)
    } else {
        first_of(rows.drop_first(), t)
    }
}

/// The public keys in the table.
pub open spec fn publics(rows: Seq<KeyRow>) -> Set<Seq<u8>> {
    Set::new(|k: Seq<u8>| exists|i: int| 0 <= i < rows.len() && (#[trigger] rows[i]).0 == k)
}

/// The rows that inserting the X25519 secrets `secrets` as `t` at `now` adds.
pub open spec fn secret_rows(secrets: Seq<Seq<u8>>, t: KeyType, now: u64) -> Seq<KeyRow> {
    secrets.map_values(|s: Seq<u8>| (crypto::x25519_public(s), s, t, now))
}

/// The row that storing the X25519 secret `s` as the signed prekey at `now` adds.
pub open spec fn pre_row(s: Seq<u8>, now: u64) -> KeyRow {
    (crypto::x25519_public(s), s, KeyType::Pre, now)
}

/// The row that storing the Ed25519 seed `seed` as the identity key at `now` adds.
pub open spec fn identity_row(seed: Seq<u8>, now: u64) -> KeyRow {
    (crypto::ed25519_public(seed), seed, KeyType::Identity, now)
}

/// Inserting `row`: the rows after, and whether it was stored; a row whose
/// public key is stored already is refused and changes nothing.
pub open spec fn key_insertion(rows: Seq<KeyRow>, row: KeyRow) -> (Seq<KeyRow>, bool) {
    if publics(rows).contains(row.0) {
        (rows, false)
    } else {
        (rows.push(row), true)
    }
}

/// Making sure a signed prekey is stored, with `s` as the fresh secret if one
/// is needed: the rows after, and whether it succeeded.
pub open spec fn with_pre_key(rows: Seq<KeyRow>, s: Seq<u8>, now: u64) -> (Seq<KeyRow>, bool) {
    if first_of(rows, KeyType::Pre) is Some {
        (rows, true)
    } else {
        key_insertion(rows, pre_row(s, now))
    }
}

/// Making sure an identity key is stored, with `seed` as the fresh seed if one
/// is needed: the rows after, and whether it succeeded.
pub open spec fn with_identity_key(rows: Seq<KeyRow>, seed: Seq<u8>, now: u64) -> (Seq<KeyRow>, bool) {
    if first_of(rows, KeyType::Identity) is Some {
        (rows, true)
    } else {
        key_insertion(rows, identity_row(seed, now))
    }
}

/// Setting up a client over `rows`: a signed prekey first (fresh secret `s`),
/// then an identity key (fresh seed `seed`); the rows after, and whether both
/// steps succeeded.
pub open spec fn client_setup(rows: Seq<KeyRow>, s: Seq<u8>, seed: Seq<u8>, now: u64) -> (Seq<KeyRow>, bool) {
    let (r, ok) = with_pre_key(rows, s, now);
    if !ok {
        (r, false)
    } else {
        with_identity_key(r, seed, now)
    }
}

/// The X25519 public keys of `secrets`, in order.
pub open spec fn x25519_publics(secrets: Seq<Seq<u8>>) -> Seq<Seq<u8>> {
    secrets.map_values(|s: Seq<u8>| crypto::x25519_public(s))
}

/// Storing the X25519 secrets `secrets` as one-time prekeys at `now`: the rows
/// after (the insertion stops at the first public key stored already), and
/// whether all of them were stored.
pub open spec fn opk_insertion(rows: Seq<KeyRow>, secrets: Seq<Seq<u8>>, now: u64) -> (Seq<KeyRow>, bool) {
    let p = insertable_prefix(publics(rows), x25519_publics(secrets));
    (rows + secret_rows(secrets.take(p as int), KeyType::OneTimePre, now), p == secrets.len())
}

/// The table holds `secret` as the private key of `public`.
pub open spec fn holds_secret(rows: Seq<KeyRow>, public: Seq<u8>, secret: Seq<u8>) -> bool {
    exists|i: int| 0 <= i < rows.len() && (#[trigger] rows[i]).0 == public && rows[i].1 == secret
}

/// The table holds a private key for `public` whose X25519 public key is `public`.
pub open spec fn holds_x25519(rows: Seq<KeyRow>, public: Seq<u8>) -> bool {
    exists|i: int| 0 <= i < rows.len() && (#[trigger] rows[i]).0 == public && crypto::x25519_public(rows[i].1) == public
}

/// The number of rows of type `t`.
pub open spec fn count_of(rows: Seq<KeyRow>, t: KeyType) -> nat
    decreases rows.len(),
{
    if rows.len() == 0 {
        0
    } else {
        count_of(rows.drop_last(), t) + if rows.last().2 == t {
            1nat
        } else {
            0nat
        }
    }
}

/// The key table.
pub struct KeyTable {
    rows: Vec<([u8; 32], [u8; 32], KeyType, u64)>,
}

impl KeyTable {
    /// The stored keys, in the order they were inserted.
    pub closed spec fn rows(&self) -> Seq<KeyRow> {
        self.rows@.map_values(|r: ([u8; 32], [u8; 32], KeyType, u64)| (r.0@, r.1@, r.2, r.3))
    }

    /// No public key is stored twice.
    pub closed spec fn wf(&self) -> bool {
        forall|a: int, b: int| 0 <= a < b < self.rows().len() ==> (#[trigger] self.rows()[a]).0 != (#[trigger] self.rows()[b]).0
    }

    /// The position of the row with public key `public`, if any.
    fn find(&self, public: &[u8; 32]) -> (res: Option<usize>)
        ensures
            res matches Some(i) ==> i < self.rows().len() && self.rows()[i as int].0 == public@,
            res is Some <==> publics(self.rows()).contains(public@),
    {
        let n = self.rows.len();
        let mut i: usize = 0;
        while i < n
            invariant
                n == self.rows@.len(),
                i <= n,
                forall|j: int| 0 <= j < i ==> (#[trigger] self.rows()[j]).0 != public@,
            decreases n - i,
        {
            assert(self.rows()[i as int].0 == self.rows@[i as int].0@);
            if crate::bytes::bytes_eq(&self.rows[i].0, public) {
                return Some(i);
            }
            i = i + 1;
        }
        proof {
            if publics(self.rows()).contains(public@) {
                let j = choose|j: int| 0 <= j < self.rows().len() && (#[trigger] self.rows()[j]).0 == public@;
                assert(j >= n);
            }
        }
        None
    }

    /// Appends a row whose public key is new.
    fn push_row(&mut self, row: ([u8; 32], [u8; 32], KeyType, u64))
        requires
            old(self).wf(),
            !publics(old(self).rows()).contains(row.0@),
        ensures
            final(self).wf(),
            final(self).rows() == old(self).rows().push((row.0@, row.1@, row.2, row.3)),
            publics(final(self).rows()) == publics(old(self).rows()).insert(row.0@),
    {
        let ghost before = self.rows();
        self.rows.push(row);
        proof {
            let r = (row.0@, row.1@, row.2, row.3);
            assert(self.rows() =~= before.push(r));
            assert forall|a: int, b: int| 0 <= a < b < self.rows().len() implies (#[trigger] self.rows()[a]).0
                != (#[trigger] self.rows()[b]).0 by {
                assert(self.rows()[a] == before[a]);
                if b == before.len() {
                    assert(publics(before).contains(before[a].0));
                } else {
                    assert(self.rows()[b] == before[b]);
                }
            }
            assert forall|k: Seq<u8>| publics(self.rows()).contains(k) == publics(before).insert(r.0).contains(k) by {
                if publics(before).contains(k) {
                    let i = choose|i: int| 0 <= i < before.len() && (#[trigger] before[i]).0 == k;
                    assert(self.rows()[i] == before[i]);
                }
                if publics(self.rows()).contains(k) {
                    let i = choose|i: int| 0 <= i < self.rows().len() && (#[trigger] self.rows()[i]).0 == k;
                    if i < before.len() {
                        assert(self.rows()[i] == before[i]);
                    }
                }
                if k == r.0 {
                    assert(self.rows()[before.len() as int].0 == k);
                }
            }
            assert(publics(self.rows()) =~= publics(before).insert(r.0));
        }
    }
}

/// An empty key table.
pub fn create_key_table() -> (res: KeyTable)
    ensures
        res.wf(),
        res.rows() == Seq::<KeyRow>::empty(),
{
    let res = KeyTable { rows: Vec::new() };
    assert(res.rows() =~= Seq::<KeyRow>::empty());
    res
}

/// Stores the identity key.
pub fn insert_identity_key(identity_key: &SigningKey, table: &mut KeyTable, now: u64) -> (res: Result<(), KeyTableError>)
    requires
        old(table).wf(),
    ensures
        final(table).wf(),
        res is Ok <==> !publics(old(table).rows()).contains(crypto::ed25519_public(identity_key@)),
        res is Ok ==> final(table).rows() == old(table).rows().push(
            (crypto::ed25519_public(identity_key@), identity_key@, KeyType::Identity, now),
        ),
        res is Err ==> final(table).rows() == old(table).rows() && res == Err::<(), KeyTableError>(
            KeyTableError::DuplicateKey,
        ),
{
    let public = identity_key.verifying_key().to_bytes();
    if table.find(&public).is_some() {
        return Err(KeyTableError::DuplicateKey);
    }
    table.push_row((public, identity_key.to_bytes(), KeyType::Identity, now));
    Ok(())
}

/// The private key of the first stored key of type `t`.
fn load_first(table: &KeyTable, t: KeyType) -> (res: Option<[u8; 32]>)
    ensures
        match first_of(table.rows(), t) {
            Some(k) => res matches Some(r) && r@ == k,
            None => res is None,
        },
{
    let n = table.rows.len();
    let mut i: usize = 0;
    assert(table.rows().skip(0) =~= table.rows());
    while i < n
        invariant
            n == table.rows@.len(),
            i <= n,
            first_of(table.rows(), t) == first_of(table.rows().skip(i as int), t),
        decreases n - i,
    {
        let ghost rest = table.rows().skip(i as int);
        assert(rest[0] == table.rows()[i as int]);
        assert(rest.drop_first() =~= table.rows().skip(i + 1));
        if table.rows[i].2 == t {
            return Some(table.rows[i].1);
        }
        i = i + 1;
    }
    assert(table.rows().skip(n as int).len() == 0);
    None
}

/// The stored identity key, if any.
pub fn load_identity_key(table: &KeyTable) -> (res: Option<SigningKey>)
    ensures
        match first_of(table.rows(), KeyType::Identity) {
            Some(k) => res matches Some(r) && r@ == k,
            None => res is None,
        },
{
    match load_first(table, KeyType::Identity) {
        Some(seed) => Some(SigningKey::from_bytes(seed)),
        None => None,
    }
}

/// The stored signed prekey secret, if any.
pub fn load_pre_key(table: &KeyTable) -> (res: Option<X25519Secret>)
    ensures
        match first_of(table.rows(), KeyType::Pre) {
            Some(k) => res matches Some(r) && r@ == k,
            None => res is None,
        },
{
    load_first(table, KeyType::Pre)
}

/// Stores X25519 secrets as keys of type `key_type`, in order; the first one
/// whose public key is already stored stops the insertion with an error, the
/// ones before it staying.
pub fn insert_pre_keys(keys: &[X25519Secret], key_type: KeyType, table: &mut KeyTable, now: u64) -> (res: Result<
    (),
    KeyTableError,
>)
    requires
        old(table).wf(),
    ensures
        final(table).wf(),
        ({
            let secrets = keys@.map_values(|k: X25519Secret| k@);
            let p = insertable_prefix(
                publics(old(table).rows()),
                secrets.map_values(|s: Seq<u8>| crypto::x25519_public(s)),
            );
            &&& final(table).rows() == old(table).rows() + secret_rows(secrets.take(p as int), key_type, now)
            &&& (res is Ok <==> p == keys@.len())
        }),
        res is Err ==> res == Err::<(), KeyTableError>(KeyTableError::DuplicateKey),
{
    let ghost secrets = keys@.map_values(|k: X25519Secret| k@);
    let ghost pubs = secrets.map_values(|s: Seq<u8>| crypto::x25519_public(s));
    let ghost start = table.rows();
    let ghost p = insertable_prefix(publics(start), pubs);
    let n = keys.len();
    let mut i: usize = 0;
    assert(pubs.skip(0) =~= pubs);
    assert(start + secret_rows(secrets.take(0), key_type, now) =~= start);
    while i < n
        invariant
            table.wf(),
            n == keys@.len(),
            secrets == keys@.map_values(|k: X25519Secret| k@),
            pubs == secrets.map_values(|s: Seq<u8>| crypto::x25519_public(s)),
            start == old(table).rows(),
            p == insertable_prefix(publics(start), pubs),
            i <= n,
            i <= p,
            p == i + insertable_prefix(publics(table.rows()), pubs.skip(i as int)),
            table.rows() == start + secret_rows(secrets.take(i as int), key_type, now),
        decreases n - i,
    {
        let secret = keys[i];
        let public = keys::x25519_public_key(&secret);
        proof {
            let rest = pubs.skip(i as int);
            assert(rest[0] == public@);
            assert(rest.drop_first() =~= pubs.skip(i + 1));
        }
        if table.find(&public).is_some() {
            return Err(KeyTableError::DuplicateKey);
        }
        let ghost before = table.rows();
        table.push_row((public, secret, key_type, now));
        proof {
            assert(secrets.take(i + 1) =~= secrets.take(i as int).push(secret@));
            assert(secret_rows(secrets.take(i + 1), key_type, now) =~= secret_rows(secrets.take(i as int), key_type, now).push(
                (public@, secret@, key_type, now),
            ));
            assert(table.rows() =~= start + secret_rows(secrets.take(i + 1), key_type, now));
        }
        i = i + 1;
    }
    proof {
        assert(secrets.take(n as int) =~= secrets);
        assert(pubs.skip(n as int).len() == 0);
    }
    Ok(())
}

/// The identity key: the stored one, or a fresh one that is stored.
pub fn lazy_init_identity_key(table: &mut KeyTable, now: u64) -> (res: Result<SigningKey, KeyTableError>)
    requires
        old(table).wf(),
    ensures
        final(table).wf(),
        match first_of(old(table).rows(), KeyType::Identity) {
            Some(k) => res matches Ok(ik) && ik@ == k && final(table).rows() == old(table).rows(),
            None => match res {
                Ok(ik) => final(table).rows() == old(table).rows().push(
                    (crypto::ed25519_public(ik@), ik@, KeyType::Identity, now),
                ),
                Err(_) => final(table).rows() == old(table).rows(),
            },
        },
        exists|seed: Seq<u8>|
            #![trigger with_identity_key(old(table).rows(), seed, now)]
            {
                &&& final(table).rows() == with_identity_key(old(table).rows(), seed, now).0
                &&& (res is Ok <==> with_identity_key(old(table).rows(), seed, now).1)
                &&& (first_of(old(table).rows(), KeyType::Identity) is None ==> (res matches Ok(ik) ==> ik@ == seed))
            },
{
    match load_identity_key(table) {
        Some(ik) => {
            assert(final(table).rows() == with_identity_key(old(table).rows(), ik@, now).0);
            Ok(ik)
        },
        None => {
            let identity_key = SigningKey::generate();
            let r = insert_identity_key(&identity_key, table, now);
            assert(table.rows() == with_identity_key(old(table).rows(), identity_key@, now).0);
            match r {
                Ok(()) => Ok(identity_key),
                Err(e) => Err(e),
            }
        },
    }
}

/// Makes sure a signed prekey is stored, creating one if needed.
pub fn lazy_init_pre_key(table: &mut KeyTable, now: u64) -> (res: Result<(), KeyTableError>)
    requires
        old(table).wf(),
    ensures
        final(table).wf(),
        first_of(old(table).rows(), KeyType::Pre) is Some ==> res is Ok && final(table).rows() == old(table).rows(),
        res is Ok ==> first_of(final(table).rows(), KeyType::Pre) is Some,
        first_of(final(table).rows(), KeyType::Identity) == first_of(old(table).rows(), KeyType::Identity),
        exists|s: Seq<u8>|
            #![trigger with_pre_key(old(table).rows(), s, now)]
            {
                &&& final(table).rows() == with_pre_key(old(table).rows(), s, now).0
                &&& (res is Ok <==> with_pre_key(old(table).rows(), s, now).1)
            },
{
    if load_pre_key(table).is_some() {
        assert(table.rows() == with_pre_key(old(table).rows(), Seq::<u8>::empty(), now).0);
        return Ok(());
    }
    let secret = keys::generate_x25519_secret();
    let batch = [secret];
    let ghost before = table.rows();
    let r = insert_pre_keys(&batch, KeyType::Pre, table, now);
    proof {
        let secrets = batch@.map_values(|k: X25519Secret| k@);
        let pubs = secrets.map_values(|s: Seq<u8>| crypto::x25519_public(s));
        let p = insertable_prefix(publics(before), pubs);
        let added = secret_rows(secrets.take(p as int), KeyType::Pre, now);
        assert forall|j: int| 0 <= j < added.len() implies (#[trigger] added[j]).2 != KeyType::Identity by {}
        lemma_first_of_append_other(before, added, KeyType::Identity);
        if r is Ok {
            assert(insertable_prefix(publics(before), pubs) == 1);
            assert(secrets.take(1) =~= seq![secret@]);
            lemma_first_of_append(before, secret_rows(seq![secret@], KeyType::Pre, now), KeyType::Pre);
        }
        assert(pubs =~= seq![crypto::x25519_public(secret@)]);
        assert(pubs.drop_first().len() == 0);
        if publics(before).contains(crypto::x25519_public(secret@)) {
            assert(p == 0);
            assert(secrets.take(0).len() == 0);
            assert(table.rows() =~= before);
        } else {
            assert(insertable_prefix(publics(before).insert(pubs[0]), pubs.drop_first()) == 0);
            assert(p == 1);
            assert(secrets.take(1) =~= seq![secret@]);
            assert(secret_rows(seq![secret@], KeyType::Pre, now) =~= seq![pre_row(secret@, now)]);
            assert(table.rows() =~= before.push(pre_row(secret@, now)));
        }
        assert(table.rows() == with_pre_key(before, secret@, now).0);
    }
    r
}

/// A table without a key of type `t` that gets rows appended, the first of
/// type `t`, has that row's private key first.
proof fn lemma_first_of_append(rows: Seq<KeyRow>, more: Seq<KeyRow>, t: KeyType)
    requires
        first_of(rows, t) is None,
        more.len() > 0,
        more[0].2 == t,
    ensures
        first_of(rows + more, t) == Some(more[0].1),
    decreases rows.len(),
{
    if rows.len() > 0 {
        assert((rows + more).drop_first() =~= rows.drop_first() + more);
        lemma_first_of_append(rows.drop_first(), more, t);
    } else {
        assert(rows + more =~= more);
    }
}

/// How many one-time prekeys are stored; a count beyond `u32` is an error.
pub fn opk_count(table: &KeyTable) -> (res: Option<u32>)
    ensures
        res is Some <==> count_of(table.rows(), KeyType::OneTimePre) <= u32::MAX,
        res matches Some(c) ==> c == count_of(table.rows(), KeyType::OneTimePre),
{
    let n = table.rows.len();
    let mut count: usize = 0;
    let mut i: usize = 0;
    while i < n
        invariant
            n == table.rows@.len(),
            i <= n,
            count <= i,
            count == count_of(table.rows().subrange(0, i as int), KeyType::OneTimePre),
        decreases n - i,
    {
        assert(table.rows().subrange(0, i + 1).drop_last() =~= table.rows().subrange(0, i as int));
        assert(table.rows()[i as int].2 == table.rows@[i as int].2);
        if table.rows[i].2 == KeyType::OneTimePre {
            count = count + 1;
        }
        i = i + 1;
    }
    assert(table.rows().subrange(0, n as int) =~= table.rows());
    if count > 4294967295 {
        None
    } else {
        Some(count as u32)
    }
}

/// A client whose keys live in a key table.
pub struct X3DHClient {
    table: KeyTable,
    ik: SigningKey,
}

impl X3DHClient {
    /// The stored keys.
    pub closed spec fn rows(&self) -> Seq<KeyRow> {
        self.table.rows()
    }

    /// The identity key's seed.
    pub closed spec fn identity_seed(&self) -> Seq<u8> {
        self.ik@
    }

    /// The table is well formed.
    pub closed spec fn wf(&self) -> bool {
        self.table.wf()
    }

    /// A client over `table`: makes sure a signed prekey and an identity key
    /// are stored, and uses the stored identity key.
    pub fn new(table: KeyTable, now: u64) -> (res: Result<X3DHClient, KeyTableError>)
        requires
            table.wf(),
        ensures
            res matches Ok(c) ==> c.wf() && (first_of(table.rows(), KeyType::Identity) matches Some(k) ==> c.identity_seed()
                == k),
            res matches Ok(c) ==> first_of(c.rows(), KeyType::Pre) is Some && first_of(c.rows(), KeyType::Identity)
                == Some(c.identity_seed()),
            exists|s: Seq<u8>, seed: Seq<u8>|
                #![trigger client_setup(table.rows(), s, seed, now)]
                {
                    &&& (res is Ok <==> client_setup(table.rows(), s, seed, now).1)
                    &&& (res matches Ok(c) ==> c.rows() == client_setup(table.rows(), s, seed, now).0)
                },
    {
        let ghost start = table.rows();
        let mut table = table;
        let r = lazy_init_pre_key(&mut table, now);
        let ghost s = choose|s: Seq<u8>|
            #![trigger with_pre_key(start, s, now)]
            {
                &&& table.rows() == with_pre_key(start, s, now).0
                &&& (r is Ok <==> with_pre_key(start, s, now).1)
            };
        match r {
            Ok(()) => {},
            Err(e) => {
                assert(!client_setup(start, s, Seq::<u8>::empty(), now).1);
                return Err(e);
            },
        }
        let ghost mid = table.rows();
        let r2 = lazy_init_identity_key(&mut table, now);
        let ghost seed = choose|seed: Seq<u8>|
            #![trigger with_identity_key(mid, seed, now)]
            {
                &&& table.rows() == with_identity_key(mid, seed, now).0
                &&& (r2 is Ok <==> with_identity_key(mid, seed, now).1)
                &&& (first_of(mid, KeyType::Identity) is None ==> (r2 matches Ok(ik) ==> ik@ == seed))
            };
        assert(client_setup(start, s, seed, now) == with_identity_key(mid, seed, now));
        let ik = match r2 {
            Ok(k) => k,
            Err(e) => return Err(e),
        };
        proof {
            if first_of(mid, KeyType::Identity) is None {
                lemma_first_of_append(mid, seq![(crypto::ed25519_public(ik@), ik@, KeyType::Identity, now)], KeyType::Identity);
                lemma_first_of_keeps(mid, seq![(crypto::ed25519_public(ik@), ik@, KeyType::Identity, now)], KeyType::Pre);
                assert(mid + seq![(crypto::ed25519_public(ik@), ik@, KeyType::Identity, now)] =~= mid.push(
                    (crypto::ed25519_public(ik@), ik@, KeyType::Identity, now),
                ));
            }
        }
        Ok(X3DHClient { table, ik })
    }

    /// Takes the private key whose public key is `one_time_prekey` out of the
    /// table, whatever the key's type.
    pub fn fetch_wipe_opk(&mut self, one_time_prekey: &X25519Public) -> (res: Result<X25519Secret, ClientError>)
        requires
            old(self).wf(),
        ensures
            final(self).wf(),
            final(self).identity_seed() == old(self).identity_seed(),
            res is Ok <==> publics(old(self).rows()).contains(one_time_prekey@),
            res matches Ok(s) ==> exists|i: int|
                0 <= i < old(self).rows().len() && #[trigger] old(self).rows()[i].0 == one_time_prekey@ && s@ == old(
                    self,
                ).rows()[i].1 && final(self).rows() == old(self).rows().remove(i),
            res is Err ==> final(self).rows() == old(self).rows() && (res matches Err(ClientError::WipeOpk(t))
                && t@ == crypto::base64_standard(one_time_prekey@)),
            !publics(final(self).rows()).contains(one_time_prekey@),
            (forall|i: int|
                0 <= i < old(self).rows().len() && (#[trigger] old(self).rows()[i]).0 == one_time_prekey@ ==> old(
                    self,
                ).rows()[i].2 == KeyType::OneTimePre) ==> first_of(final(self).rows(), KeyType::Pre) == first_of(
                old(self).rows(),
                KeyType::Pre,
            ) && first_of(final(self).rows(), KeyType::Identity) == first_of(old(self).rows(), KeyType::Identity),
    {
        match self.table.find(one_time_prekey) {
            Some(i) => {
                let ghost before = self.table.rows();
                let (_, secret, _, _) = self.table.rows.remove(i);
                proof {
                    assert(self.table.rows() =~= before.remove(i as int));
                    assert forall|a: int, b: int| 0 <= a < b < self.table.rows().len() implies (#[trigger] self.table.rows()[a]).0
                        != (#[trigger] self.table.rows()[b]).0 by {
                        let a2 = if a < i { a } else { a + 1 };
                        let b2 = if b < i { b } else { b + 1 };
                        assert(self.table.rows()[a] == before[a2] && self.table.rows()[b] == before[b2]);
                    }
                    assert(old(self).rows()[i as int] == before[i as int]);
                    if before[i as int].2 == KeyType::OneTimePre {
                        lemma_first_of_remove(before, i as int, KeyType::Pre);
                        lemma_first_of_remove(before, i as int, KeyType::Identity);
                    }
                    if publics(self.table.rows()).contains(one_time_prekey@) {
                        let j = choose|j: int| 0 <= j < self.table.rows().len() && (#[trigger] self.table.rows()[j]).0
                            == one_time_prekey@;
                        let j2 = if j < i { j } else { j + 1 };
                        assert(self.table.rows()[j] == before[j2]);
                        assert(before[j2].0 == before[i as int].0);
                    }
                }
                Ok(secret)
            },
            None => Err(ClientError::WipeOpk(crypto::base64_encode(one_time_prekey))),
        }
    }

    /// Reads an initial message: takes the private key of the one-time
    /// prekey it names out of the table (wiping it), looks up the private key
    /// of the signed prekey it names, then runs the receiver's half of X3DH
    /// and opens the envelope. Answers the plaintext.
    pub fn receive(&mut self, message: &x3dh::Message) -> (res: Result<Vec<u8>, ClientError>)
        requires
            old(self).wf(),
            aead::envelope_readable(message.ciphertext@),
        ensures
            final(self).wf(),
            final(self).identity_seed() == old(self).identity_seed(),
            match message.opk {
                Some(k) => if publics(old(self).rows()).contains(k@) {
                    exists|i: int|
                        0 <= i < old(self).rows().len() && #[trigger] old(self).rows()[i].0 == k@ && final(self).rows()
                            == old(self).rows().remove(i)
                } else {
                    final(self).rows() == old(self).rows() && (res matches Err(ClientError::WipeOpk(t)) && t@
                        == crypto::base64_standard(k@))
                },
                None => final(self).rows() == old(self).rows(),
            },
            (message.opk is None || publics(old(self).rows()).contains(message.opk.unwrap()@)) && !publics(
                final(self).rows(),
            ).contains(message.pre_key@) ==> (res matches Err(ClientError::GetPreKey(t)) && t@
                == crypto::base64_standard(message.pre_key@)),
            res matches Ok(p) ==> exists|opk_secret: Option<Seq<u8>>, pre_secret: Seq<u8>|
                #![trigger x3dh::receiver_secret(message.sender_ik@, message.ek@, opk_secret, old(self).identity_seed(), pre_secret)]
                {
                    &&& holds_secret(final(self).rows(), message.pre_key@, pre_secret)
                    &&& match message.opk {
                        Some(k) => opk_secret matches Some(sec) && holds_secret(old(self).rows(), k@, sec),
                        None => opk_secret is None,
                    }
                    &&& message.ciphertext@ == aead::sealed_envelope(
                        x3dh::receiver_secret(
                            message.sender_ik@,
                            message.ek@,
                            opk_secret,
                            old(self).identity_seed(),
                            pre_secret,
                        ),
                        aead::envelope_nonce(message.ciphertext@),
                        p@,
                        x3dh::associated_data(message.sender_ik@, crypto::ed25519_public(old(self).identity_seed())),
                    )
                },
            forall|sender_seed: Seq<u8>, ek_secret: Seq<u8>, nonce: Seq<u8>, m: Seq<u8>|
                #![trigger crypto::ed25519_public(sender_seed), crypto::x25519_public(ek_secret), aead::sealed_envelope(
                    x3dh::sender_secret(
                        sender_seed,
                        ek_secret,
                        crypto::ed25519_public(old(self).identity_seed()),
                        message.pre_key@,
                        x3dh::opt_view(message.opk),
                    ),
                    nonce,
                    m,
                    x3dh::associated_data(crypto::ed25519_public(sender_seed), crypto::ed25519_public(old(self).identity_seed())),
                )]
                message.sender_ik@ == crypto::ed25519_public(sender_seed)
                    && message.ek@ == crypto::x25519_public(ek_secret)
                    && nonce.len() == aead::NONCE_LEN
                    && crypto::aead_msg_len_ok(m.len())
                    && holds_x25519(old(self).rows(), message.pre_key@)
                    && (message.opk matches Some(k) ==> holds_x25519(old(self).rows(), k@) && k@ != message.pre_key@)
                    && message.ciphertext@ == aead::sealed_envelope(
                        x3dh::sender_secret(
                            sender_seed,
                            ek_secret,
                            crypto::ed25519_public(old(self).identity_seed()),
                            message.pre_key@,
                            x3dh::opt_view(message.opk),
                        ),
                        nonce,
                        m,
                        x3dh::associated_data(crypto::ed25519_public(sender_seed), crypto::ed25519_public(old(self).identity_seed())),
                    )
                    ==> (res matches Ok(p) && p@ == m),
    {
        proof {
            lemma_held_x25519_is_public(old(self).rows(), message.pre_key@);
            if let Some(k) = message.opk {
                lemma_held_x25519_is_public(old(self).rows(), k@);
            }
        }
        let opk = match &message.opk {
            Some(k) => match self.fetch_wipe_opk(k) {
                Ok(sec) => Some(sec),
                Err(e) => return Err(e),
            },
            None => None,
        };
        proof {
            if let Some(k) = message.opk {
                if holds_x25519(old(self).rows(), message.pre_key@) && k@ != message.pre_key@ {
                    lemma_removal_keeps_held(old(self).rows(), self.rows(), k@, message.pre_key@);
                }
            }
        }
        let pre_key = match self.get_pre_key(&message.pre_key) {
            Ok(sec) => sec,
            Err(e) => return Err(e),
        };
        let ik = self.get_ik();
        let ghost pk = pre_key;
        let ghost ov = x3dh::opt_view(opk);
        proof {
            lemma_held_secret_unique(self.rows(), message.pre_key@, pre_key@);
            if let Some(k) = message.opk {
                lemma_held_secret_unique(old(self).rows(), k@, opk.unwrap()@);
            }
        }
        let r = initiate_recv(&ik, &pre_key, &message.sender_ik, message.ek, opk, message.ciphertext.as_slice());
        proof {
            assert forall|sender_seed: Seq<u8>, ek_secret: Seq<u8>, nonce: Seq<u8>, m: Seq<u8>|
                message.sender_ik@ == crypto::ed25519_public(sender_seed)
                    && message.ek@ == crypto::x25519_public(ek_secret)
                    && nonce.len() == aead::NONCE_LEN
                    && crypto::aead_msg_len_ok(m.len())
                    && holds_x25519(old(self).rows(), message.pre_key@)
                    && (message.opk matches Some(k) ==> holds_x25519(old(self).rows(), k@) && k@ != message.pre_key@)
                    && message.ciphertext@ == aead::sealed_envelope(
                        x3dh::sender_secret(
                            sender_seed,
                            ek_secret,
                            crypto::ed25519_public(old(self).identity_seed()),
                            message.pre_key@,
                            x3dh::opt_view(message.opk),
                        ),
                        nonce,
                        m,
                        x3dh::associated_data(crypto::ed25519_public(sender_seed), crypto::ed25519_public(old(self).identity_seed())),
                    )
                implies (r matches Ok((_sk, p)) && p@ == m) by {
                assert(crypto::x25519_public(pk@) == message.pre_key@);
                assert(x3dh::opt_public(opk) == x3dh::opt_view(message.opk));
                assert(crypto::ed25519_public(ik@) == crypto::ed25519_public(old(self).identity_seed()));
            }
        }
        match r {
            Ok((_sk, plaintext)) => {
                proof {
                    assert(holds_secret(self.rows(), message.pre_key@, pre_key@));
                    match message.opk {
                        Some(k) => {
                            assert(holds_secret(old(self).rows(), k@, opk.unwrap()@));
                        },
                        None => {},
                    }
                    assert(x3dh::receiver_secret(message.sender_ik@, message.ek@, ov, old(self).identity_seed(), pre_key@)
                        == x3dh::receiver_secret(message.sender_ik@, message.ek@, ov, ik@, pre_key@));
                }
                Ok(plaintext)
            },
            Err(e) => Err(ClientError::X3DH(e)),
        }
    }

    /// Reads a message as it comes from the server: its wire form is read
    /// first (an invalid one is refused as `Grpc` with the reason), an envelope
    /// too short to open is refused as `Truncated`, and any other message is
    /// received as `receive` does.
    pub fn receive_wire(&mut self, w: &wire::Message) -> (res: Result<Vec<u8>, ClientError>)
        requires
            old(self).wf(),
        ensures
            final(self).wf(),
            final(self).identity_seed() == old(self).identity_seed(),
            wire::message_error(*w) is Some ==> final(self).rows() == old(self).rows() && (res matches Err(
                ClientError::Grpc(s),
            ) && s.code == Code::InvalidArgument && Some(s.message@) == wire::message_error(*w)),
            wire::message_error(*w) is None && !aead::envelope_readable(proto::field_bytes(w.ciphertext)) ==> final(self).rows()
                == old(self).rows() && res == Err::<Vec<u8>, ClientError>(
                ClientError::X3DH(x3dh::X3DHError::Aead(aead::AeadError::Truncated)),
            ),
            wire::message_error(*w) is None && aead::envelope_readable(proto::field_bytes(w.ciphertext)) ==> match w.one_time_key {
                Some(k) => if publics(old(self).rows()).contains(k@) {
                    exists|i: int|
                        0 <= i < old(self).rows().len() && #[trigger] old(self).rows()[i].0 == k@ && final(self).rows()
                            == old(self).rows().remove(i)
                } else {
                    final(self).rows() == old(self).rows() && (res matches Err(ClientError::WipeOpk(t)) && t@
                        == crypto::base64_standard(k@))
                },
                None => final(self).rows() == old(self).rows(),
            },
            res matches Ok(p) ==> exists|opk_secret: Option<Seq<u8>>, pre_secret: Seq<u8>|
                #![trigger x3dh::receiver_secret(proto::field_bytes(w.sender_identity_key), proto::field_bytes(w.ephemeral_key), opk_secret, old(self).identity_seed(), pre_secret)]
                {
                    &&& holds_secret(final(self).rows(), proto::field_bytes(w.pre_key), pre_secret)
                    &&& match w.one_time_key {
                        Some(k) => opk_secret matches Some(sec) && holds_secret(old(self).rows(), k@, sec),
                        None => opk_secret is None,
                    }
                    &&& proto::field_bytes(w.ciphertext) == aead::sealed_envelope(
                        x3dh::receiver_secret(
                            proto::field_bytes(w.sender_identity_key),
                            proto::field_bytes(w.ephemeral_key),
                            opk_secret,
                            old(self).identity_seed(),
                            pre_secret,
                        ),
                        aead::envelope_nonce(proto::field_bytes(w.ciphertext)),
                        p@,
                        x3dh::associated_data(
                            proto::field_bytes(w.sender_identity_key),
                            crypto::ed25519_public(old(self).identity_seed()),
                        ),
                    )
                },
            forall|sender_seed: Seq<u8>, ek_secret: Seq<u8>, nonce: Seq<u8>, m: Seq<u8>|
                #![trigger crypto::ed25519_public(sender_seed), crypto::x25519_public(ek_secret), aead::sealed_envelope(
                    x3dh::sender_secret(
                        sender_seed,
                        ek_secret,
                        crypto::ed25519_public(old(self).identity_seed()),
                        proto::field_bytes(w.pre_key),
                        wire::opt_bytes(w.one_time_key),
                    ),
                    nonce,
                    m,
                    x3dh::associated_data(crypto::ed25519_public(sender_seed), crypto::ed25519_public(old(self).identity_seed())),
                )]
                wire::message_error(*w) is None
                    && proto::field_bytes(w.sender_identity_key) == crypto::ed25519_public(sender_seed)
                    && proto::field_bytes(w.ephemeral_key) == crypto::x25519_public(ek_secret)
                    && nonce.len() == aead::NONCE_LEN
                    && crypto::aead_msg_len_ok(m.len())
                    && holds_x25519(old(self).rows(), proto::field_bytes(w.pre_key))
                    && (w.one_time_key matches Some(k) ==> holds_x25519(old(self).rows(), k@) && k@ != proto::field_bytes(w.pre_key))
                    && proto::field_bytes(w.ciphertext) == aead::sealed_envelope(
                        x3dh::sender_secret(
                            sender_seed,
                            ek_secret,
                            crypto::ed25519_public(old(self).identity_seed()),
                            proto::field_bytes(w.pre_key),
                            wire::opt_bytes(w.one_time_key),
                        ),
                        nonce,
                        m,
                        x3dh::associated_data(crypto::ed25519_public(sender_seed), crypto::ed25519_public(old(self).identity_seed())),
                    )
                    ==> (res matches Ok(p) && p@ == m),
    {
        let message = match x3dh::Message::try_from_proto(w) {
            Ok(m) => m,
            Err(s) => return Err(ClientError::Grpc(s)),
        };
        if !aead::is_readable(message.ciphertext.as_slice()) {
            proof {
                assert forall|sender_seed: Seq<u8>, ek_secret: Seq<u8>, nonce: Seq<u8>, m: Seq<u8>|
                    nonce.len() == aead::NONCE_LEN && #[trigger] aead::sealed_envelope(
                        x3dh::sender_secret(
                            sender_seed,
                            ek_secret,
                            crypto::ed25519_public(old(self).identity_seed()),
                            proto::field_bytes(w.pre_key),
                            wire::opt_bytes(w.one_time_key),
                        ),
                        nonce,
                        m,
                        x3dh::associated_data(crypto::ed25519_public(sender_seed), crypto::ed25519_public(old(self).identity_seed())),
                    ) == proto::field_bytes(w.ciphertext) implies false by {
                    let e = aead::sealed_envelope(
                        x3dh::sender_secret(
                            sender_seed,
                            ek_secret,
                            crypto::ed25519_public(old(self).identity_seed()),
                            proto::field_bytes(w.pre_key),
                            wire::opt_bytes(w.one_time_key),
                        ),
                        nonce,
                        m,
                        x3dh::associated_data(crypto::ed25519_public(sender_seed), crypto::ed25519_public(old(self).identity_seed())),
                    );
                    assert(e[0] == aead::VERSION_TAG);
                }
            }
            return Err(ClientError::X3DH(x3dh::X3DHError::Aead(aead::AeadError::Truncated)));
        }
        self.receive(&message)
    }

    /// The identity key.
    pub fn get_ik(&self) -> (res: SigningKey)
        ensures
            res@ == self.identity_seed(),
    {
        SigningKey::from_bytes(self.ik.to_bytes())
    }

    /// The private key whose public half is `pre_key`.
    pub fn get_pre_key(&self, pre_key: &X25519Public) -> (res: Result<X25519Secret, ClientError>)
        ensures
            res is Ok <==> publics(self.rows()).contains(pre_key@),
            res matches Ok(s) ==> exists|i: int|
                0 <= i < self.rows().len() && #[trigger] self.rows()[i].0 == pre_key@ && s@ == self.rows()[i].1,
            res is Err ==> (res matches Err(ClientError::GetPreKey(t)) && t@ == crypto::base64_standard(pre_key@)),
    {
        match self.table.find(pre_key) {
            Some(i) => {
                assert(self.rows()[i as int].1 == self.table.rows@[i as int].1@);
                Ok(self.table.rows[i].1)
            },
            None => Err(ClientError::GetPreKey(crypto::base64_encode(pre_key))),
        }
    }

    /// The signed prekey: the stored prekey's public key and the identity
    /// key's signature over it.
    pub fn get_spk(&self) -> (res: SignedPreKey)
        requires
            self.wf(),
            first_of(self.rows(), KeyType::Pre) is Some,
        ensures
            res.pre_key@ == crypto::x25519_public(first_of(self.rows(), KeyType::Pre).unwrap()),
            res.signature@ == bundle::bundle_signature(self.identity_seed(), seq![res.pre_key@]),
    {
        let pre_key = match load_pre_key(&self.table) {
            Some(k) => k,
            None => {
                assert(false);
                [0u8; 32]
            },
        };
        let public = keys::x25519_public_key(&pre_key);
        let pairs = [(pre_key, public)];
        let signature = sign_bundle(&self.ik, &pairs);
        proof {
            assert(bundle::key_views(pairs@.map_values(|p: (X25519Secret, X25519Public)| p.1)) =~= seq![public@]);
        }
        SignedPreKey { pre_key: public, signature }
    }

    /// Creates `num_keys` one-time prekeys, stores their private keys and
    /// answers their public keys signed by the identity key.
    pub fn create_opks(&mut self, num_keys: u32, now: u64) -> (res: Result<SignedPreKeys, KeyTableError>)
        requires
            old(self).wf(),
        ensures
            final(self).wf(),
            final(self).identity_seed() == old(self).identity_seed(),
            first_of(final(self).rows(), KeyType::Pre) == first_of(old(self).rows(), KeyType::Pre),
            first_of(final(self).rows(), KeyType::Identity) == first_of(old(self).rows(), KeyType::Identity),
            res matches Ok(b) ==> {
                &&& b.pre_keys@.len() == num_keys
                &&& b.signature@ == bundle::bundle_signature(old(self).identity_seed(), bundle::key_views(b.pre_keys@))
                &&& forall|i: int| 0 <= i < num_keys ==> publics(final(self).rows()).contains(#[trigger] b.pre_keys@[i]@)
            },
            exists|secrets: Seq<Seq<u8>>|
                #![trigger opk_insertion(old(self).rows(), secrets, now)]
                {
                    &&& secrets.len() == num_keys
                    &&& final(self).rows() == opk_insertion(old(self).rows(), secrets, now).0
                    &&& (res is Ok <==> opk_insertion(old(self).rows(), secrets, now).1)
                    &&& (res matches Ok(b) ==> bundle::key_views(b.pre_keys@) == x25519_publics(secrets))
                },
    {
        let created = create_prekey_bundle(&self.ik, num_keys);
        let n = created.bundle.len();
        let mut secrets: Vec<X25519Secret> = Vec::new();
        let mut pre_keys: Vec<X25519Public> = Vec::new();
        let mut i: usize = 0;
        while i < n
            invariant
                n == created.bundle@.len(),
                i <= n,
                secrets@.len() == i,
                pre_keys@.len() == i,
                forall|j: int| 0 <= j < i ==> (#[trigger] secrets@[j]) == created.bundle@[j].0,
                forall|j: int| 0 <= j < i ==> (#[trigger] pre_keys@[j]) == created.bundle@[j].1,
            decreases n - i,
        {
            secrets.push(created.bundle[i].0);
            pre_keys.push(created.bundle[i].1);
            i = i + 1;
        }
        let ghost before = self.table.rows();
        let ghost sec = secrets@.map_values(|k: X25519Secret| k@);
        let ghost pubs = sec.map_values(|s: Seq<u8>| crypto::x25519_public(s));
        let ghost p = insertable_prefix(publics(before), pubs);
        let r = insert_pre_keys(secrets.as_slice(), KeyType::OneTimePre, &mut self.table, now);
        proof {
            let added = secret_rows(sec.take(p as int), KeyType::OneTimePre, now);
            assert forall|j: int| 0 <= j < added.len() implies (#[trigger] added[j]).2 == KeyType::OneTimePre by {}
            lemma_first_of_extend(before, added);
            assert(pubs == x25519_publics(sec));
            assert(self.table.rows() == opk_insertion(before, sec, now).0);
            assert(before == old(self).rows());
            assert(sec.len() == num_keys);
            assert(r is Ok <==> opk_insertion(before, sec, now).1);
        }
        match r {
            Ok(()) => {},
            Err(e) => return Err(e),
        }
        proof {
            assert(bundle::key_views(pre_keys@) =~= x25519_publics(sec)) by {
                assert forall|j: int| 0 <= j < pre_keys@.len() implies #[trigger] bundle::key_views(pre_keys@)[j]
                    == x25519_publics(sec)[j] by {
                    assert(secrets@[j] == created.bundle@[j].0);
                    assert(pre_keys@[j] == created.bundle@[j].1);
                }
            }
            assert(pre_keys@ =~= created.bundle@.map_values(|p: (X25519Secret, X25519Public)| p.1));
            let added = secret_rows(sec.take(p as int), KeyType::OneTimePre, now);
            assert(sec.take(p as int) =~= sec);
            assert forall|j: int| 0 <= j < num_keys implies publics(self.table.rows()).contains(#[trigger] pre_keys@[j]@) by {
                assert(self.table.rows()[before.len() + j] == added[j]);
                assert(added[j].0 == crypto::x25519_public(secrets@[j]@));
                assert(secrets@[j] == created.bundle@[j].0);
                assert(pre_keys@[j]@ == crypto::x25519_public(created.bundle@[j].0@));
            }
        }
        Ok(SignedPreKeys { pre_keys, signature: created.signature })
    }
}

/// A key held with its X25519 secret is among the table's public keys.
proof fn lemma_held_x25519_is_public(rows: Seq<KeyRow>, public: Seq<u8>)
    ensures
        holds_x25519(rows, public) ==> publics(rows).contains(public),
{
    if holds_x25519(rows, public) {
        let i = choose|i: int| 0 <= i < rows.len() && (#[trigger] rows[i]).0 == public && crypto::x25519_public(rows[i].1)
            == public;
        assert(rows[i].0 == public);
    }
}

/// Removing the row of `gone` keeps the row of another key held with its
/// X25519 secret.
proof fn lemma_removal_keeps_held(before: Seq<KeyRow>, after: Seq<KeyRow>, gone: Seq<u8>, kept: Seq<u8>)
    requires
        holds_x25519(before, kept),
        gone != kept,
        exists|i: int| 0 <= i < before.len() && #[trigger] before[i].0 == gone && after == before.remove(i),
    ensures
        holds_x25519(after, kept),
        publics(after).contains(kept),
{
    let i = choose|i: int| 0 <= i < before.len() && #[trigger] before[i].0 == gone && after == before.remove(i);
    let j = choose|j: int| 0 <= j < before.len() && (#[trigger] before[j]).0 == kept && crypto::x25519_public(before[j].1)
        == kept;
    let j2 = if j < i { j } else { j - 1 };
    assert(j != i);
    assert(after[j2] == before[j]);
    lemma_held_x25519_is_public(after, kept);
}

/// In a table whose public keys are distinct, the secret held for a key that
/// is held with its X25519 secret is that secret.
proof fn lemma_held_secret_unique(rows: Seq<KeyRow>, public: Seq<u8>, secret: Seq<u8>)
    requires
        forall|a: int, b: int| 0 <= a < b < rows.len() ==> (#[trigger] rows[a]).0 != (#[trigger] rows[b]).0,
    ensures
        holds_x25519(rows, public) && holds_secret(rows, public, secret) ==> crypto::x25519_public(secret) == public,
{
    if holds_x25519(rows, public) && holds_secret(rows, public, secret) {
        let i = choose|i: int| 0 <= i < rows.len() && (#[trigger] rows[i]).0 == public && crypto::x25519_public(rows[i].1)
            == public;
        let j = choose|j: int| 0 <= j < rows.len() && (#[trigger] rows[j]).0 == public && rows[j].1 == secret;
        if i < j {
            assert(rows[i].0 != rows[j].0);
        } else if j < i {
            assert(rows[j].0 != rows[i].0);
        }
    }
}

/// Removing a row keeps the first key of any other type.
proof fn lemma_first_of_remove(rows: Seq<KeyRow>, i: int, t: KeyType)
    requires
        0 <= i < rows.len(),
        rows[i].2 != t,
    ensures
        first_of(rows.remove(i), t) == first_of(rows, t),
    decreases rows.len(),
{
    if i > 0 {
        assert(rows.remove(i)[0] == rows[0]);
        assert(rows.remove(i).drop_first() =~= rows.drop_first().remove(i - 1));
        if rows[0].2 != t {
            lemma_first_of_remove(rows.drop_first(), i - 1, t);
        }
    } else {
        assert(rows.remove(0) =~= rows.drop_first());
    }
}

/// Appending rows keeps a first key that is there.
proof fn lemma_first_of_keeps(rows: Seq<KeyRow>, more: Seq<KeyRow>, t: KeyType)
    requires
        first_of(rows, t) is Some,
    ensures
        first_of(rows + more, t) == first_of(rows, t),
    decreases rows.len(),
{
    if rows[0].2 != t {
        assert((rows + more).drop_first() =~= rows.drop_first() + more);
        lemma_first_of_keeps(rows.drop_first(), more, t);
    } else {
        assert((rows + more)[0] == rows[0]);
    }
}

/// Appending rows of other types keeps the first key of type `t`.
proof fn lemma_first_of_append_other(rows: Seq<KeyRow>, more: Seq<KeyRow>, t: KeyType)
    requires
        forall|j: int| 0 <= j < more.len() ==> (#[trigger] more[j]).2 != t,
    ensures
        first_of(rows + more, t) == first_of(rows, t),
    decreases rows.len(),
{
    if rows.len() > 0 {
        assert((rows + more).drop_first() =~= rows.drop_first() + more);
        assert((rows + more)[0] == rows[0]);
        lemma_first_of_append_other(rows.drop_first(), more, t);
    } else {
        assert(rows + more =~= more);
        lemma_first_of_none(more, t);
    }
}

/// Appending one-time prekey rows keeps the first signed prekey and identity key.
proof fn lemma_first_of_extend(rows: Seq<KeyRow>, more: Seq<KeyRow>)
    requires
        forall|j: int| 0 <= j < more.len() ==> (#[trigger] more[j]).2 == KeyType::OneTimePre,
    ensures
        first_of(rows + more, KeyType::Pre) == first_of(rows, KeyType::Pre),
        first_of(rows + more, KeyType::Identity) == first_of(rows, KeyType::Identity),
{
    lemma_first_of_append_other(rows, more, KeyType::Pre);
    lemma_first_of_append_other(rows, more, KeyType::Identity);
}

/// Rows of other types hold no first key of type `t`.
proof fn lemma_first_of_none(rows: Seq<KeyRow>, t: KeyType)
    requires
        forall|j: int| 0 <= j < rows.len() ==> (#[trigger] rows[j]).2 != t,
    ensures
        first_of(rows, t) is None,
    decreases rows.len(),
{
    if rows.len() > 0 {
        let d = rows.drop_first();
        assert forall|j: int| 0 <= j < d.len() implies (#[trigger] d[j]).2 != t by {
            assert(d[j] == rows[j + 1]);
        }
        lemma_first_of_none(d, t);
    }
}

} // verus!
