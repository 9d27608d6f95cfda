//! Small association maps: vectors of `(String, value)` pairs with unique
//! keys, looked up by scan.  They model the per-actor maps, which are only
//! ever touched from their owning actor's context.

use vstd::prelude::*;
use crate::text::str_eq;

verus! {

/// Index of the first entry with this key, or a negative number.
pub open spec fn key_idx<V>(m: Seq<(String, V)>, k: Seq<char>) -> int
    decreases m.len(),
{
    if m.len() == 0 {
        -1
    } else if m[0].0@ == k {
        0
    } else {
        let r = key_idx(m.skip(1), k);
        if r < 0 {
            -1
        } else {
            r + 1
        }
    }
}

/// Whether some entry has this key.
pub open spec fn map_has<V>(m: Seq<(String, V)>, k: Seq<char>) -> bool {
    key_idx(m, k) >= 0
}

/// The value stored under this key.
pub open spec fn map_val<V>(m: Seq<(String, V)>, k: Seq<char>) -> V
    recommends
        map_has(m, k),
{
    m[key_idx(m, k)].1
}

/// The map after storing `v` under `key`: the first entry with that key is
/// replaced, or a new entry is appended.
pub open spec fn upserted<V>(m: Seq<(String, V)>, key: String, v: V) -> Seq<(String, V)> {
    if map_has(m, key@) {
        m.update(key_idx(m, key@), (key, v))
    } else {
        m.push((key, v))
    }
}

/// No two entries share a key.
pub open spec fn keys_unique<V>(m: Seq<(String, V)>) -> bool {
    forall|i: int, j: int| 0 <= i < j < m.len() ==> (#[trigger] m[i]).0@ != (#[trigger] m[j]).0@
}

/// A non-negative `key_idx` points at the first entry with the key.
pub proof fn lemma_key_idx_props<V>(m: Seq<(String, V)>, k: Seq<char>)
    ensures
        key_idx(m, k) >= 0 ==> 0 <= key_idx(m, k) < m.len() && m[key_idx(m, k)].0@ == k,
        key_idx(m, k) < 0 ==> forall|t: int| 0 <= t < m.len() ==> (#[trigger] m[t]).0@ != k,
        key_idx(m, k) >= 0 ==> forall|t: int| 0 <= t < key_idx(m, k) ==> (#[trigger] m[t]).0@ != k,
    decreases m.len(),
{
    if m.len() == 0 {
    } else if m[0].0@ == k {
    } else {
        lemma_key_idx_props(m.skip(1), k);
        let r = key_idx(m.skip(1), k);
        if r >= 0 {
            assert(m[r + 1] == m.skip(1)[r]);
            assert forall|t: int| 0 <= t < key_idx(m, k) implies (#[trigger] m[t]).0@ != k by {
                if t > 0 {
                    assert(m[t] == m.skip(1)[t - 1]);
                }
            }
        } else {
            assert forall|t: int| 0 <= t < m.len() implies (#[trigger] m[t]).0@ != k by {
                if t > 0 {
                    assert(m[t] == m.skip(1)[t - 1]);
                }
            }
        }
    }
}

/// A scan that finds the key at `i`, with no earlier match, agrees with
/// `key_idx`.
pub proof fn lemma_key_idx_found<V>(m: Seq<(String, V)>, k: Seq<char>, i: int)
    requires
        0 <= i < m.len(),
        m[i].0@ == k,
        forall|t: int| 0 <= t < i ==> (#[trigger] m[t]).0@ != k,
    ensures
        key_idx(m, k) == i,
    decreases i,
{
    if i == 0 {
    } else {
        assert(forall|t: int| 0 <= t < i - 1 ==> m.skip(1)[t] == m[t + 1]);
        assert(m.skip(1)[i - 1] == m[i]);
        lemma_key_idx_found(m.skip(1), k, i - 1);
    }
}

/// A scan that finds no match agrees with `key_idx`.
pub proof fn lemma_key_idx_missing<V>(m: Seq<(String, V)>, k: Seq<char>)
    requires
        forall|t: int| 0 <= t < m.len() ==> (#[trigger] m[t]).0@ != k,
    ensures
        key_idx(m, k) < 0,
    decreases m.len(),
{
    if m.len() > 0 {
        assert(forall|t: int| 0 <= t < m.skip(1).len() ==> m.skip(1)[t] == m[t + 1]);
        lemma_key_idx_missing(m.skip(1), k);
    }
}

/// Upserting keeps keys unique.
pub proof fn lemma_upserted_unique<V>(m: Seq<(String, V)>, key: String, v: V)
    requires
        keys_unique(m),
    ensures
        keys_unique(upserted(m, key, v)),
{
    lemma_key_idx_props(m, key@);
    let r = upserted(m, key, v);
    if map_has(m, key@) {
        let i = key_idx(m, key@);
        assert forall|a: int, b: int| 0 <= a < b < r.len() implies (#[trigger] r[a]).0@ != (
        #[trigger] r[b]).0@ by {
            if a != i && b != i {
                assert(m[a].0@ != m[b].0@);
            } else if a == i {
                assert(m[i].0@ == key@);
                assert(m[a].0@ != m[b].0@);
            } else {
                assert(m[i].0@ == key@);
                assert(m[a].0@ != m[b].0@);
            }
        }
    } else {
        assert forall|a: int, b: int| 0 <= a < b < r.len() implies (#[trigger] r[a]).0@ != (
        #[trigger] r[b]).0@ by {
            if b < m.len() {
                assert(m[a].0@ != m[b].0@);
            } else {
                assert(r[b].0@ == key@);
            }
        }
    }
}

/// Find the entry with this key.
pub fn find_key<V>(m: &Vec<(String, V)>, k: &str) -> (r: Option<usize>)
    ensures
        match r {
            Some(i) => {
                &&& i < m@.len()
                &&& m@[i as int].0@ == k@
                &&& key_idx(m@, k@) == i
            },
            None => key_idx(m@, k@) < 0,
        },
{
    let mut i: usize = 0;
    while i < m.len()
        invariant
            i <= m@.len(),
            forall|t: int| 0 <= t < i ==> (#[trigger] m@[t]).0@ != k@,
        decreases m@.len() - i,
    {
        if str_eq(m[i].0.as_str(), k) {
            proof {
                lemma_key_idx_found(m@, k@, i as int);
            }
            return Some(i);
        }
        i = i + 1;
    }
    proof {
        lemma_key_idx_missing(m@, k@);
    }
    None
}

/// Store `v` under `key`.
pub fn upsert<V>(m: &mut Vec<(String, V)>, key: String, v: V)
    requires
        keys_unique(old(m)@),
    ensures
        final(m)@ == upserted(old(m)@, key, v),
        keys_unique(final(m)@),
{
    proof {
        lemma_upserted_unique(old(m)@, key, v);
    }
    match find_key(m, key.as_str()) {
        Some(i) => {
            m[i] = (key, v);
        },
        None => {
            m.push((key, v));
        },
    }
}

} // verus!
