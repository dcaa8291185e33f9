//! The insertion-ordered map of the `indexmap` crate, with numbers for keys and values.
use crate::text::position;
use indexmap::IndexMap;
use vstd::prelude::*;

verus! {

/// `indexmap::IndexMap`, a hash map that keeps its pairs in order.
#[verifier::external_type_specification]
#[verifier::external_body]
#[verifier::reject_recursive_types(K)]
#[verifier::reject_recursive_types(V)]
#[verifier::reject_recursive_types(S)]
pub struct ExIndexMap<K, V, S>(IndexMap<K, V, S>);

/// The pairs of a map, in order.
pub uninterp spec fn pairs(m: IndexMap<u64, u64>) -> Seq<(u64, u64)>;

/// The keys of `s`, in order.
pub open spec fn keys(s: Seq<(u64, u64)>) -> Seq<u64> {
    s.map_values(|p: (u64, u64)| p.0)
}

/// `s` without what stands at `i`, where the last item takes its place.
pub open spec fn swap_removed(s: Seq<(u64, u64)>, i: int) -> Seq<(u64, u64)> {
    s.update(i, s.last()).drop_last()
}

/// `IndexMap::new`: a map without pairs.
#[verifier::external_body]
pub(crate) fn map_new() -> (m: IndexMap<u64, u64>)
    ensures
        pairs(m) == Seq::<(u64, u64)>::empty(),
{
    IndexMap::new()
}

/// `IndexMap::len`: the number of pairs.
#[verifier::external_body]
pub(crate) fn map_len(m: &IndexMap<u64, u64>) -> (n: usize)
    ensures
        n == pairs(*m).len(),
{
    m.len()
}

/// `IndexMap::get_index`: the pair at `i`, if there are that many.
#[verifier::external_body]
pub(crate) fn map_get_index(m: &IndexMap<u64, u64>, i: usize) -> (r: Option<(u64, u64)>)
    ensures
        r == if i < pairs(*m).len() {
            Some(pairs(*m)[i as int])
        } else {
            None
        },
{
    m.get_index(i).map(|(k, v)| (*k, *v))
}

/// `IndexMap::contains_key`: whether a pair has the key `k`.
#[verifier::external_body]
pub(crate) fn map_contains_key(m: &IndexMap<u64, u64>, k: u64) -> (b: bool)
    ensures
        b == keys(pairs(*m)).contains(k),
{
    m.contains_key(&k)
}

/// `IndexMap::insert`: a pair with the key `k` gets the value `v` in its place; where there is
/// none, a new pair goes to the end.
#[verifier::external_body]
pub(crate) fn map_insert(m: &mut IndexMap<u64, u64>, k: u64, v: u64)
    ensures
        pairs(*final(m)) == ({
            let s = pairs(*old(m));
            let i = position(keys(s), k);
            if i < s.len() {
                s.update(i, (k, v))
            } else {
                s.push((k, v))
            }
        }),
{
    m.insert(k, v);
}

/// `IndexMap::swap_remove_index`: takes the pair at `i` out, if there are that many, and moves
/// the last pair to its place.
#[verifier::external_body]
pub(crate) fn map_swap_remove_index(m: &mut IndexMap<u64, u64>, i: usize) -> (r: Option<
    (u64, u64),
>)
    ensures
        i < pairs(*old(m)).len() ==> r == Some(pairs(*old(m))[i as int]) && pairs(*final(m))
            == swap_removed(pairs(*old(m)), i as int),
        i >= pairs(*old(m)).len() ==> r is None && pairs(*final(m)) == pairs(*old(m)),
{
    m.swap_remove_index(i)
}

/// `IndexMap::swap_remove`: takes the pair with the key `k` out, if there is one, and moves the
/// last pair to its place.
#[verifier::external_body]
pub(crate) fn map_swap_remove(m: &mut IndexMap<u64, u64>, k: u64)
    ensures
        pairs(*final(m)) == ({
            let s = pairs(*old(m));
            let i = position(keys(s), k);
            if i < s.len() {
                swap_removed(s, i)
            } else {
                s
            }
        }),
{
    m.swap_remove(&k);
}

/// `IndexMap::clear`: takes all pairs out.
#[verifier::external_body]
pub(crate) fn map_clear(m: &mut IndexMap<u64, u64>)
    ensures
        pairs(*final(m)) == Seq::<(u64, u64)>::empty(),
{
    m.clear()
}

} // verus!
