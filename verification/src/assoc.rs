//! Association lists: a sequence of (key, value) entries read as a map, a
//! later entry for a key hiding an earlier one.
use vstd::prelude::*;

verus! {

/// The map that a list of entries stands for.
pub open spec fn assoc_map<K, V>(entries: Seq<(K, V)>) -> Map<K, V>
    decreases entries.len(),
{
    if entries.len() == 0 {
        Map::empty()
    } else {
        assoc_map(entries.drop_last()).insert(entries.last().0, entries.last().1)
    }
}

/// No key has two entries.
pub open spec fn keys_distinct<K, V>(entries: Seq<(K, V)>) -> bool {
    forall|a: int, b: int| 0 <= a < b < entries.len() ==> (#[trigger] entries[a]).0 != (#[trigger] entries[b]).0
}

/// A key with no entry is not in the map.
pub proof fn lemma_assoc_absent<K, V>(entries: Seq<(K, V)>, k: K)
    requires
        forall|j: int| 0 <= j < entries.len() ==> (#[trigger] entries[j]).0 != k,
    ensures
        !assoc_map(entries).contains_key(k),
    decreases entries.len(),
{
    if entries.len() > 0 {
        let d = entries.drop_last();
        assert forall|j: int| 0 <= j < d.len() implies (#[trigger] d[j]).0 != k by {
            assert(d[j] == entries[j]);
        }
        lemma_assoc_absent(d, k);
    }
}

/// With distinct keys, the map holds each entry's value for its key.
pub proof fn lemma_assoc_at<K, V>(entries: Seq<(K, V)>, i: int)
    requires
        0 <= i < entries.len(),
        keys_distinct(entries),
    ensures
        assoc_map(entries).contains_key(entries[i].0),
        assoc_map(entries)[entries[i].0] == entries[i].1,
    decreases entries.len(),
{
    if i < entries.len() - 1 {
        let d = entries.drop_last();
        assert(d[i] == entries[i]);
        assert forall|a: int, b: int| 0 <= a < b < d.len() implies (#[trigger] d[a]).0 != (#[trigger] d[b]).0 by {
            assert(d[a] == entries[a] && d[b] == entries[b]);
        }
        lemma_assoc_at(d, i);
        assert(entries[entries.len() - 1].0 != entries[i].0);
    }
}

/// With distinct keys, a key in the map has an entry.
pub proof fn lemma_assoc_present<K, V>(entries: Seq<(K, V)>, k: K)
    requires
        assoc_map(entries).contains_key(k),
    ensures
        exists|j: int| 0 <= j < entries.len() && (#[trigger] entries[j]).0 == k,
{
    if forall|j: int| 0 <= j < entries.len() ==> (#[trigger] entries[j]).0 != k {
        lemma_assoc_absent(entries, k);
    }
}

/// With distinct keys, removing the entry at `i` removes its key from the map.
pub proof fn lemma_assoc_remove<K, V>(entries: Seq<(K, V)>, i: int)
    requires
        0 <= i < entries.len(),
        keys_distinct(entries),
    ensures
        assoc_map(entries.remove(i)) == assoc_map(entries).remove(entries[i].0),
        keys_distinct(entries.remove(i)),
    decreases entries.len(),
{
    let k = entries[i].0;
    let r = entries.remove(i);
    assert forall|a: int, b: int| 0 <= a < b < r.len() implies (#[trigger] r[a]).0 != (#[trigger] r[b]).0 by {
        let a2 = if a < i { a } else { a + 1 };
        let b2 = if b < i { b } else { b + 1 };
        assert(r[a] == entries[a2] && r[b] == entries[b2]);
    }
    let d = entries.drop_last();
    assert forall|a: int, b: int| 0 <= a < b < d.len() implies (#[trigger] d[a]).0 != (#[trigger] d[b]).0 by {
        assert(d[a] == entries[a] && d[b] == entries[b]);
    }
    if i == entries.len() - 1 {
        assert(r =~= d);
        assert forall|j: int| 0 <= j < d.len() implies (#[trigger] d[j]).0 != k by {
            assert(d[j] == entries[j]);
        }
        lemma_assoc_absent(d, k);
        assert(assoc_map(d) =~= assoc_map(entries).remove(k));
    } else {
        assert(d[i] == entries[i]);
        lemma_assoc_remove(d, i);
        assert(r.drop_last() =~= d.remove(i));
        assert(r.last() == entries.last());
        assert(entries.last().0 != k);
        assert(assoc_map(r) =~= assoc_map(entries).remove(k));
    }
}

/// Appending an entry for a new key keeps the keys distinct.
pub proof fn lemma_assoc_push_distinct<K, V>(entries: Seq<(K, V)>, e: (K, V))
    requires
        keys_distinct(entries),
        !assoc_map(entries).contains_key(e.0),
    ensures
        keys_distinct(entries.push(e)),
{
    let p = entries.push(e);
    assert forall|a: int, b: int| 0 <= a < b < p.len() implies (#[trigger] p[a]).0 != (#[trigger] p[b]).0 by {
        assert(p[a] == entries[a]);
        if b == entries.len() {
            lemma_assoc_at(entries, a);
        } else {
            assert(p[b] == entries[b]);
        }
    }
    assert(p.drop_last() =~= entries);
}

/// The position of the entry for `id`, if there is one.
pub fn find_entry<V>(entries: &Vec<(String, V)>, id: &String) -> (res: Option<usize>)
    ensures
        res matches Some(i) ==> i < entries@.len() && entries@[i as int].0@ == id@,
        res is None ==> forall|j: int| 0 <= j < entries@.len() ==> (#[trigger] entries@[j]).0@ != id@,
{
    let n = entries.len();
    let mut i: usize = 0;
    while i < n
        invariant
            n == entries@.len(),
            i <= n,
            forall|j: int| 0 <= j < i ==> (#[trigger] entries@[j]).0@ != id@,
        decreases n - i,
    {
        if entries[i].0 == *id {
            return Some(i);
        }
        i = i + 1;
    }
    None
}

} // verus!
