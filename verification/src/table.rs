//! Tables of entries keyed by a 128-bit id, looked up by their first entry for a key.
use vstd::prelude::*;

verus! {

/// The index of the first entry keyed `key`, if any.
pub open spec fn key_index<V>(entries: Seq<(u128, V)>, key: u128) -> Option<int>
    decreases entries.len(),
{
    if entries.len() == 0 {
        None
    } else if entries[0].0 == key {
        Some(0)
    } else {
        match key_index(entries.drop_first(), key) {
            Some(i) => Some(i + 1),
            None => None,
        }
    }
}

/// The first entry for a key is in range and carries the key.
pub proof fn lemma_key_index_range<V>(entries: Seq<(u128, V)>, key: u128)
    ensures
        key_index(entries, key) matches Some(i) ==> 0 <= i < entries.len() && entries[i].0 == key,
        key_index(entries, key) is None ==> forall|i: int| 0 <= i < entries.len() ==> entries[i].0 != key,
    decreases entries.len(),
{
    if entries.len() > 0 && entries[0].0 != key {
        lemma_key_index_range(entries.drop_first(), key);
        assert forall|i: int| 1 <= i < entries.len() implies entries[i] == entries.drop_first()[i - 1] by {}
    }
}

/// Where the first entry keyed `key` stands, if any.
pub fn find_key<V>(entries: &Vec<(u128, V)>, key: u128) -> (r: Option<usize>)
    ensures
        match r {
            Some(i) => i < entries@.len() && key_index(entries@, key) == Some(i as int),
            None => key_index(entries@, key) is None,
        },
{
    let ghost es = entries@;
    let mut i: usize = 0;
    assert(es.subrange(0, es.len() as int) =~= es);
    while i < entries.len()
        invariant
            i <= es.len(),
            es == entries@,
            key_index(es, key) == match key_index(es.subrange(i as int, es.len() as int), key) {
                Some(k) => Some(k + i),
                None => None,
            },
        decreases es.len() - i,
    {
        proof {
            let rest = es.subrange(i as int, es.len() as int);
            assert(rest[0] == es[i as int]);
            assert(rest.drop_first() =~= es.subrange(i + 1, es.len() as int));
        }
        if entries[i].0 == key {
            return Some(i);
        }
        i = i + 1;
    }
    proof {
        assert(es.subrange(i as int, es.len() as int) =~= Seq::<(u128, V)>::empty());
    }
    None
}

/// The table after putting `value` under `key`: the first entry for the key is replaced,
/// or the entry is appended when the key is new.
pub open spec fn insert_entry<V>(entries: Seq<(u128, V)>, key: u128, value: V) -> Seq<(u128, V)> {
    match key_index(entries, key) {
        Some(i) => entries.update(i, (key, value)),
        None => entries.push((key, value)),
    }
}

/// Where `insert_entry` puts the entry for `key`.
pub open spec fn entry_pos<V>(entries: Seq<(u128, V)>, key: u128) -> int {
    match key_index(entries, key) {
        Some(i) => i,
        None => entries.len() as int,
    }
}

/// Puts `value` under `key`, replacing the first entry for the key or appending one.
pub fn put_entry<V>(entries: &mut Vec<(u128, V)>, key: u128, value: V)
    ensures
        final(entries)@ == insert_entry(old(entries)@, key, value),
        0 <= entry_pos(old(entries)@, key) < final(entries)@.len(),
        final(entries)@[entry_pos(old(entries)@, key)] == (key, value),
{
    proof {
        lemma_key_index_range(entries@, key);
    }
    match find_key(entries, key) {
        Some(i) => {
            entries.set(i, (key, value));
        },
        None => {
            entries.push((key, value));
        },
    }
}

} // verus!
