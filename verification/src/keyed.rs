//! Entries by key: a list of pairs of a key and a value in which the first
//! pair with a key is the one that counts.
//!
//! The auxiliary entries of the metadata and the methods of a service are
//! such lists.  A list in which no key comes twice behaves like a map that
//! remembers the order in which its keys were added.

use vstd::prelude::*;

verus! {

/// What a list of entries holds.
pub open spec fn pairs(entries: Seq<(String, String)>) -> Seq<(Seq<char>, Seq<char>)> {
    Seq::new(entries.len(), |i: int| (entries[i].0@, entries[i].1@))
}

/// The place of the first entry with the key `k`.
pub open spec fn key_index<V>(entries: Seq<(Seq<char>, V)>, k: Seq<char>) -> Option<nat>
    decreases entries.len(),
{
    if entries.len() == 0 {
        None
    } else if entries[0].0 == k {
        Some(0)
    } else {
        match key_index(entries.drop_first(), k) {
            Some(i) => Some(i + 1),
            None => None,
        }
    }
}

/// The value that the entries give to the key `k`.
pub open spec fn value_of<V>(entries: Seq<(Seq<char>, V)>, k: Seq<char>) -> Option<V> {
    match key_index(entries, k) {
        Some(i) => Some(entries[i as int].1),
        None => None,
    }
}

/// The entries after `k` has been given the value `v`: the first entry with
/// that key has its value replaced, and where there is none a new entry
/// comes last.
pub open spec fn put<V>(entries: Seq<(Seq<char>, V)>, k: Seq<char>, v: V) -> Seq<
    (Seq<char>, V),
> {
    match key_index(entries, k) {
        Some(i) => entries.update(i as int, (k, v)),
        None => entries.push((k, v)),
    }
}

/// No two entries have the same key.
pub open spec fn distinct_keys<V>(entries: Seq<(Seq<char>, V)>) -> bool {
    forall|i: int, j: int| 0 <= i < j < entries.len() ==> entries[i].0 != entries[j].0
}

/// `key_index` finds the first entry with the key, and finds none only where
/// there is none.
pub proof fn lemma_key_index<V>(entries: Seq<(Seq<char>, V)>, k: Seq<char>)
    ensures
        match key_index(entries, k) {
            Some(i) => i < entries.len() && entries[i as int].0 == k && forall|j: int|
                0 <= j < i ==> entries[j].0 != k,
            None => forall|j: int| 0 <= j < entries.len() ==> entries[j].0 != k,
        },
    decreases entries.len(),
{
    if entries.len() == 0 {
    } else if entries[0].0 == k {
    } else {
        let tail = entries.drop_first();
        lemma_key_index(tail, k);
        match key_index(tail, k) {
            Some(i) => {
                assert forall|j: int| 0 <= j < i + 1 implies entries[j].0 != k by {
                    if j > 0 {
                        assert(entries[j] == tail[j - 1]);
                    }
                }
            },
            None => {
                assert forall|j: int| 0 <= j < entries.len() implies entries[j].0 != k by {
                    if j > 0 {
                        assert(entries[j] == tail[j - 1]);
                    }
                }
            },
        }
    }
}

/// An index that holds the key and has no entry with the key before it is
/// the one that `key_index` finds.
pub proof fn lemma_key_index_is<V>(entries: Seq<(Seq<char>, V)>, k: Seq<char>, i: nat)
    requires
        i <= entries.len(),
        forall|j: int| 0 <= j < i ==> entries[j].0 != k,
        i < entries.len() ==> entries[i as int].0 == k,
    ensures
        key_index(entries, k) == if i < entries.len() {
            Some(i)
        } else {
            None
        },
{
    lemma_key_index(entries, k);
}

/// The place of the first entry with the key `k`, if there is one.
pub fn find_key(entries: &Vec<(String, String)>, k: &String) -> (r: Option<usize>)
    ensures
        match r {
            Some(i) => key_index(pairs(entries@), k@) == Some(i as nat) && i < entries@.len(),
            None => key_index(pairs(entries@), k@) is None,
        },
{
    let mut i: usize = 0;
    while i < entries.len()
        invariant
            i <= entries@.len(),
            forall|j: int| 0 <= j < i ==> pairs(entries@)[j].0 != k@,
        decreases entries@.len() - i,
    {
        if entries[i].0 == *k {
            proof {
                lemma_key_index_is(pairs(entries@), k@, i as nat);
            }
            return Some(i);
        }
        i = i + 1;
    }
    proof {
        lemma_key_index_is(pairs(entries@), k@, i as nat);
    }
    None
}

/// Gives the key `k` the value `v` and returns the value it had.
pub fn put_entry(entries: &mut Vec<(String, String)>, k: String, v: String) -> (r: Option<String>)
    ensures
        pairs(final(entries)@) == put(pairs(old(entries)@), k@, v@),
        match r {
            Some(s) => value_of(pairs(old(entries)@), k@) == Some(s@),
            None => value_of(pairs(old(entries)@), k@) is None,
        },
{
    match find_key(entries, &k) {
        Some(i) => {
            let before = entries[i].1.clone();
            entries.set(i, (k, v));
            assert(pairs(entries@) =~= put(pairs(old(entries)@), k@, v@));
            Some(before)
        },
        None => {
            entries.push((k, v));
            assert(pairs(entries@) =~= put(pairs(old(entries)@), k@, v@));
            None
        },
    }
}

} // verus!
