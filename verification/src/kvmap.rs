//! A sequence of key/value pairs of bytes with insert-or-overwrite
//! semantics: the common model behind the signature store (identifier to
//! pattern) and the risk registry (path to identifier). Keys are unique;
//! insertion order of fresh keys is kept.
use vstd::prelude::*;

verus! {

/// The first index in `m` whose key is `key`, or `m.len()` if none.
pub open spec fn key_index(m: Seq<(Seq<u8>, Seq<u8>)>, key: Seq<u8>) -> int
    decreases m.len(),
{
    if m.len() == 0 {
        0
    } else if m[0].0 == key {
        0
    } else {
        1 + key_index(m.drop_first(), key)
    }
}

/// `m` holds an entry for `key`.
pub open spec fn has_key(m: Seq<(Seq<u8>, Seq<u8>)>, key: Seq<u8>) -> bool {
    key_index(m, key) < m.len()
}

/// The value stored under `key`.
pub open spec fn map_val(m: Seq<(Seq<u8>, Seq<u8>)>, key: Seq<u8>) -> Seq<u8>
    recommends
        has_key(m, key),
{
    m[key_index(m, key)].1
}

/// Overwrites the entry for `key` in place, or appends a fresh one.
pub open spec fn map_insert(m: Seq<(Seq<u8>, Seq<u8>)>, key: Seq<u8>, val: Seq<u8>) -> Seq<
    (Seq<u8>, Seq<u8>),
> {
    if has_key(m, key) {
        m.update(key_index(m, key), (key, val))
    } else {
        m.push((key, val))
    }
}

/// All keys in `m` are distinct.
pub open spec fn unique_keys(m: Seq<(Seq<u8>, Seq<u8>)>) -> bool {
    forall|i: int, j: int| 0 <= i < j < m.len() ==> (#[trigger] m[i]).0 != (#[trigger] m[j]).0
}

/// `key_index` points at the first entry for `key`: everything before it has
/// another key, and if it is in range it holds `key`.
pub proof fn lemma_key_index(m: Seq<(Seq<u8>, Seq<u8>)>, key: Seq<u8>)
    ensures
        0 <= key_index(m, key) <= m.len(),
        key_index(m, key) < m.len() ==> m[key_index(m, key)].0 == key,
        forall|j: int| 0 <= j < key_index(m, key) ==> (#[trigger] m[j]).0 != key,
    decreases m.len(),
{
    if m.len() > 0 && m[0].0 != key {
        lemma_key_index(m.drop_first(), key);
        assert forall|j: int| 0 <= j < key_index(m, key) implies (#[trigger] m[j]).0 != key by {
            if j >= 1 {
                assert(m.drop_first()[j - 1] == m[j]);
                assert(m.drop_first()[j - 1].0 != key);
            }
        }
    }
}

/// An index that sees only other keys before it, and `key` at it (or the end
/// with no `key` at all), is `key_index`.
pub proof fn lemma_key_index_is_first(m: Seq<(Seq<u8>, Seq<u8>)>, key: Seq<u8>, i: int)
    requires
        0 <= i <= m.len(),
        forall|j: int| 0 <= j < i ==> (#[trigger] m[j]).0 != key,
        i < m.len() ==> m[i].0 == key,
    ensures
        key_index(m, key) == i,
{
    lemma_key_index(m, key);
}

/// After `map_insert`, `key` is present and holds `val`.
pub proof fn lemma_map_insert_lookup(m: Seq<(Seq<u8>, Seq<u8>)>, key: Seq<u8>, val: Seq<u8>)
    ensures
        has_key(map_insert(m, key, val), key),
        map_val(map_insert(m, key, val), key) == val,
{
    lemma_key_index(m, key);
    let n = map_insert(m, key, val);
    if has_key(m, key) {
        lemma_key_index_is_first(n, key, key_index(m, key));
    } else {
        lemma_key_index_is_first(n, key, m.len() as int);
    }
}

/// `map_insert` under one key leaves every other key's presence and value as
/// they were.
pub proof fn lemma_map_insert_other(
    m: Seq<(Seq<u8>, Seq<u8>)>,
    key: Seq<u8>,
    val: Seq<u8>,
    other: Seq<u8>,
)
    requires
        other != key,
    ensures
        has_key(map_insert(m, key, val), other) == has_key(m, other),
        has_key(m, other) ==> map_val(map_insert(m, key, val), other) == map_val(m, other),
{
    lemma_key_index(m, key);
    lemma_key_index(m, other);
    let n = map_insert(m, key, val);
    if has_key(m, other) {
        lemma_key_index_is_first(n, other, key_index(m, other));
    } else {
        if has_key(m, key) {
            lemma_key_index_is_first(n, other, m.len() as int);
        } else {
            lemma_key_index_is_first(n, other, m.len() as int + 1);
        }
    }
}

/// `map_insert` keeps keys unique.
pub proof fn lemma_map_insert_unique(m: Seq<(Seq<u8>, Seq<u8>)>, key: Seq<u8>, val: Seq<u8>)
    requires
        unique_keys(m),
    ensures
        unique_keys(map_insert(m, key, val)),
{
    lemma_key_index(m, key);
}

} // verus!
