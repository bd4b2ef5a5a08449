//! Association lists keyed by strings, kept the way an insertion-ordered
//! map keeps its entries: each key at most once, in the order keys were
//! first inserted.
use vstd::prelude::*;
use crate::text::str_equal;

verus! {

/// Whether no key occurs twice among the entries.
pub open spec fn keys_unique<V>(entries: Seq<(String, V)>) -> bool {
    forall|i: int, j: int|
        0 <= i < entries.len() && 0 <= j < entries.len() && i != j ==> #[trigger] entries[i].0@
            != #[trigger] entries[j].0@
}

/// The entries after inserting `(k, v)`: an existing key gets the new value
/// in place, a new key goes last.
pub open spec fn insert_entry<V>(entries: Seq<(String, V)>, k: String, v: V) -> Seq<(String, V)> {
    if exists|i: int| 0 <= i < entries.len() && entries[i].0@ == k@ {
        let i = choose|i: int| 0 <= i < entries.len() && entries[i].0@ == k@;
        entries.update(i, (k, v))
    } else {
        entries.push((k, v))
    }
}

/// The index of key `k`, or -1.
pub open spec fn key_index<V>(entries: Seq<(String, V)>, k: Seq<char>) -> int
    decreases entries.len(),
{
    if entries.len() == 0 {
        -1
    } else if entries.last().0@ == k {
        entries.len() - 1
    } else {
        key_index(entries.drop_last(), k)
    }
}

pub proof fn lemma_key_index<V>(entries: Seq<(String, V)>, k: Seq<char>)
    requires
        keys_unique(entries),
    ensures
        -1 <= key_index(entries, k) < entries.len(),
        key_index(entries, k) >= 0 ==> entries[key_index(entries, k)].0@ == k,
        key_index(entries, k) == -1 <==> forall|i: int| 0 <= i < entries.len() ==> entries[i].0@ != k,
        forall|i: int| 0 <= i < entries.len() && entries[i].0@ == k ==> key_index(entries, k) == i,
    decreases entries.len(),
{
    if entries.len() > 0 {
        let d = entries.drop_last();
        assert(keys_unique(d)) by {
            assert forall|a: int, b: int| 0 <= a < d.len() && 0 <= b < d.len() && a != b implies #[trigger] d[a].0@ != #[trigger] d[b].0@ by {
                assert(d[a] == entries[a]);
                assert(d[b] == entries[b]);
            }
        }
        lemma_key_index(d, k);
        assert forall|i: int| 0 <= i < d.len() implies d[i] == entries[i] by {}
    }
}

/// Inserts an entry the way an insertion-ordered map does: a key already
/// present gets the new value in place, a new key goes last.
pub fn map_insert<V>(entries: &mut Vec<(String, V)>, key: String, value: V)
    requires
        keys_unique(old(entries)@),
    ensures
        keys_unique(final(entries)@),
        final(entries)@ == insert_entry(old(entries)@, key, value),
        (exists|i: int| 0 <= i < old(entries)@.len() && old(entries)@[i].0@ == key@) ==> (exists|j: int|
            0 <= j < old(entries)@.len() && old(entries)@[j].0@ == key@
                && final(entries)@ == old(entries)@.update(j, (key, value))),
        (forall|i: int| 0 <= i < old(entries)@.len() ==> old(entries)@[i].0@ != key@)
            ==> final(entries)@ == old(entries)@.push((key, value)),
{
    let mut i: usize = 0;
    while i < entries.len()
        invariant
            i <= entries@.len(),
            entries@ == old(entries)@,
            keys_unique(entries@),
            forall|j: int| 0 <= j < i ==> entries@[j].0@ != key@,
        decreases entries@.len() - i,
    {
        if str_equal(entries[i].0.as_str(), key.as_str()) {
            let ghost before = entries@;
            proof {
                let j = choose|j: int| 0 <= j < before.len() && before[j].0@ == key@;
                assert(before[i as int].0@ == key@);
                if j != i {
                    assert(before[j].0@ != before[i as int].0@);
                }
            }
            entries.set(i, (key, value));
            proof {
                assert(entries@ == before.update(i as int, (key, value)));
                assert forall|a: int, b: int|
                    0 <= a < entries@.len() && 0 <= b < entries@.len() && a != b implies #[trigger] entries@[a].0@
                    != #[trigger] entries@[b].0@ by {
                    if a != i && b != i {
                        assert(entries@[a] == before[a]);
                        assert(entries@[b] == before[b]);
                    } else if a == i {
                        assert(entries@[b] == before[b]);
                        assert(before[i as int].0@ == key@);
                    } else {
                        assert(entries@[a] == before[a]);
                        assert(before[i as int].0@ == key@);
                    }
                }
            }
            return;
        }
        i = i + 1;
    }
    let ghost before = entries@;
    entries.push((key, value));
    proof {
        assert forall|a: int, b: int|
            0 <= a < entries@.len() && 0 <= b < entries@.len() && a != b implies #[trigger] entries@[a].0@
            != #[trigger] entries@[b].0@ by {
            if a < before.len() && b < before.len() {
                assert(entries@[a] == before[a]);
                assert(entries@[b] == before[b]);
            } else if a < before.len() {
                assert(entries@[a] == before[a]);
            } else {
                assert(entries@[b] == before[b]);
            }
        }
    }
}


/// The position of key `k` among the entries, if it occurs.
pub fn find_key<V>(entries: &Vec<(String, V)>, k: &str) -> (r: Option<usize>)
    requires
        keys_unique(entries@),
    ensures
        r matches Some(i) ==> i < entries@.len() && entries@[i as int].0@ == k@ && key_index(entries@, k@) == i,
        r is None ==> key_index(entries@, k@) == -1,
{
    proof {
        lemma_key_index(entries@, k@);
    }
    let mut i: usize = 0;
    while i < entries.len()
        invariant
            i <= entries@.len(),
            keys_unique(entries@),
            forall|j: int| 0 <= j < i ==> entries@[j].0@ != k@,
        decreases entries@.len() - i,
    {
        if str_equal(entries[i].0.as_str(), k) {
            proof {
                lemma_key_index(entries@, k@);
            }
            return Some(i);
        }
        i = i + 1;
    }
    None
}

} // verus!
