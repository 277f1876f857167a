//! Dictionaries as lists of entries in insertion order.

use vstd::prelude::*;

use crate::text::same_bytes;
use crate::types::OxStr;

verus! {

/// The keys of dictionary entries.
pub open spec fn keys<V>(entries: Seq<(OxStr, V)>) -> Seq<Seq<u8>> {
    Seq::new(entries.len(), |i: int| entries[i].0@)
}

/// The first place of `key`.
pub open spec fn key_at(keys: Seq<Seq<u8>>, key: Seq<u8>) -> Option<int>
    decreases keys.len(),
{
    if keys.len() == 0 {
        None
    } else if keys[0] == key {
        Some(0)
    } else {
        match key_at(keys.drop_first(), key) {
            Some(at) => Some(at + 1),
            None => None,
        }
    }
}

/// What [`key_at`] finds is the first such place.
pub proof fn lemma_key_at(keys: Seq<Seq<u8>>, key: Seq<u8>)
    ensures
        key_at(keys, key) is Some ==> 0 <= key_at(keys, key)->0 < keys.len() && keys[key_at(
            keys,
            key,
        )->0] == key,
        forall|i: int|
            0 <= i < keys.len() && (key_at(keys, key) is None || i < key_at(keys, key)->0)
                ==> #[trigger] keys[i] != key,
    decreases keys.len(),
{
    if keys.len() > 0 && keys[0] != key {
        lemma_key_at(keys.drop_first(), key);
        assert forall|i: int|
            0 <= i < keys.len() && (key_at(keys, key) is None || i < key_at(
                keys,
                key,
            )->0) implies #[trigger] keys[i] != key by {
            if i > 0 {
                assert(keys.drop_first()[i - 1] == keys[i]);
            }
        }
    }
}

/// The first place of `key`, from any description of it.
pub proof fn lemma_key_at_is(keys: Seq<Seq<u8>>, key: Seq<u8>, at: Option<int>)
    requires
        match at {
            Some(at) => 0 <= at < keys.len() && keys[at] == key && forall|i: int|
                0 <= i < at ==> #[trigger] keys[i] != key,
            None => forall|i: int| 0 <= i < keys.len() ==> #[trigger] keys[i] != key,
        },
    ensures
        key_at(keys, key) == at,
{
    lemma_key_at(keys, key);
    if let Some(found) = key_at(keys, key) {
        assert(keys[found] == key);
    }
}

/// Finds the first entry with `key`.
pub fn position_of<V>(entries: &Vec<(OxStr, V)>, key: &[u8]) -> (at: Option<usize>)
    ensures
        match at {
            Some(at) => key_at(keys(entries@), key@) == Some(at as int) && at < entries@.len()
                && entries@[at as int].0@ == key@,
            None => key_at(keys(entries@), key@) is None,
        },
{
    let mut next: usize = 0;
    while next < entries.len()
        invariant
            next <= entries@.len(),
            forall|i: int| 0 <= i < next ==> #[trigger] keys(entries@)[i] != key@,
        decreases entries@.len() - next,
    {
        assert(keys(entries@)[next as int] == entries@[next as int].0@);
        if same_bytes(entries[next].0.as_bytes(), key) {
            proof {
                lemma_key_at_is(keys(entries@), key@, Some(next as int));
            }
            return Some(next);
        }
        next = next + 1;
    }
    proof {
        lemma_key_at_is(keys(entries@), key@, None);
    }
    None
}

/// The entries with `key` set: in its place if it has one, else at the end.
pub open spec fn with_entry<V>(
    entries: Seq<(Seq<u8>, V)>,
    key: Seq<u8>,
    value: V,
) -> Seq<(Seq<u8>, V)> {
    match key_at(Seq::new(entries.len(), |i: int| entries[i].0), key) {
        Some(at) => entries.update(at, (key, value)),
        None => entries.push((key, value)),
    }
}

/// The value of `key`.
pub open spec fn entry_of<V>(entries: Seq<(Seq<u8>, V)>, key: Seq<u8>) -> Option<V> {
    match key_at(Seq::new(entries.len(), |i: int| entries[i].0), key) {
        Some(at) => Some(entries[at].1),
        None => None,
    }
}

/// Sets `key` to `value`.
pub fn set_entry<V: View>(entries: &mut Vec<(OxStr, V)>, key: OxStr, value: V)
    ensures
        viewed(final(entries)@) == with_entry(viewed(old(entries)@), key@, value@),
{
    let ghost before = entries@;
    assert(keys(before) =~= Seq::new(viewed(before).len(), |i: int| viewed(before)[i].0));
    match position_of(entries, key.as_bytes()) {
        Some(at) => {
            let ghost (k, v) = (key@, value@);
            entries.set(at, (key, value));
            assert(viewed(entries@) =~= viewed(before).update(at as int, (k, v)));
        },
        None => {
            let ghost (k, v) = (key@, value@);
            entries.push((key, value));
            assert(viewed(entries@) =~= viewed(before).push((k, v)));
        },
    }
}

/// What entries hold.
pub open spec fn viewed<V: View>(entries: Seq<(OxStr, V)>) -> Seq<(Seq<u8>, V::V)> {
    Seq::new(entries.len(), |i: int| (entries[i].0@, entries[i].1@))
}

/// Setting a key and reading it gives what was set.
pub proof fn law_set_is_read<V>(entries: Seq<(Seq<u8>, V)>, key: Seq<u8>, value: V)
    ensures
        entry_of(with_entry(entries, key, value), key) == Some(value),
{
    let names = Seq::new(entries.len(), |i: int| entries[i].0);
    let after = with_entry(entries, key, value);
    let after_names = Seq::new(after.len(), |i: int| after[i].0);
    lemma_key_at(names, key);
    match key_at(names, key) {
        Some(at) => {
            assert forall|i: int| 0 <= i < at implies #[trigger] after_names[i] != key by {
                assert(names[i] != key);
            }
            lemma_key_at_is(after_names, key, Some(at));
        },
        None => {
            let at = entries.len() as int;
            assert forall|i: int| 0 <= i < at implies #[trigger] after_names[i] != key by {
                assert(names[i] != key);
            }
            lemma_key_at_is(after_names, key, Some(at));
        },
    }
}

} // verus!
