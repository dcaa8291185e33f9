//! Keys with values, in the order in which the keys were first set.
use crate::text::{position, position_bounds, position_is};
use vstd::prelude::*;

verus! {

/// The keys of `m`, in order.
pub open spec fn keys<K, V>(m: Seq<(K, V)>) -> Seq<K> {
    m.map_values(|e: (K, V)| e.0)
}

/// The value that `m` has for `key`.
pub open spec fn lookup<K, V>(m: Seq<(K, V)>, key: K) -> Option<V> {
    let i = position(keys(m), key);
    if i < m.len() {
        Some(m[i].1)
    } else {
        None
    }
}

/// `m` with `key` set to `value`.
pub open spec fn put<K, V>(m: Seq<(K, V)>, key: K, value: V) -> Seq<(K, V)> {
    let i = position(keys(m), key);
    if i < m.len() {
        m.update(i, (key, value))
    } else {
        m.push((key, value))
    }
}

/// Whether every key occurs once.
pub open spec fn distinct<K, V>(m: Seq<(K, V)>) -> bool {
    keys(m).no_duplicates()
}

/// A key that was just set has the value it was set to, and every other key has the value it
/// had.
pub proof fn lookup_after_put<K, V>(m: Seq<(K, V)>, key: K, value: V, other: K)
    ensures
        lookup(put(m, key, value), key) == Some(value),
        other != key ==> lookup(put(m, key, value), other) == lookup(m, other),
{
    let after = put(m, key, value);
    let i = position(keys(m), key);
    position_bounds(keys(m), key);
    position_bounds(keys(m), other);
    if i < m.len() {
        assert(keys(after) =~= keys(m));
    } else {
        assert(keys(after) =~= keys(m).push(key));
        position_is(keys(after), key, i);
        if other != key {
            let j = position(keys(m), other);
            if j < m.len() {
                position_is(keys(after), other, j);
            } else {
                position_is(keys(after), other, j + 1);
            }
        }
    }
}

/// Setting a key keeps the keys distinct.
pub proof fn put_keeps_distinct<K, V>(m: Seq<(K, V)>, key: K, value: V)
    requires
        distinct(m),
    ensures
        distinct(put(m, key, value)),
{
    let after = put(m, key, value);
    position_bounds(keys(m), key);
    if position(keys(m), key) < m.len() {
        assert(keys(after) =~= keys(m));
    } else {
        assert(keys(after) =~= keys(m).push(key));
    }
}

/// What a key is looked up as stands somewhere under that key.
pub proof fn lookup_is_somewhere<K, V>(m: Seq<(K, V)>, key: K) -> (i: int)
    requires
        lookup(m, key) is Some,
    ensures
        0 <= i < m.len(),
        m[i] == (key, lookup(m, key)->0),
{
    position_bounds(keys(m), key);
    position(keys(m), key)
}

} // verus!
