//! The contract shared by both backends: a map from normalized prefixes to
//! values, read by longest match.
use vstd::prelude::*;

use crate::IPNet;

verus! {

/// The value stored under `k`, if any.
pub open spec fn stored<K, V>(m: Map<K, V>, k: K) -> Option<V> {
    if m.dom().contains(k) {
        Some(m[k])
    } else {
        None
    }
}

/// `k` is a stored prefix that covers `q`, and no stored prefix covering `q`
/// is longer.
pub open spec fn is_longest_match<N: IPNet, V>(m: Map<(N::R, u32), V>, q: N, k: (N::R, u32)) -> bool {
    &&& m.dom().contains(k)
    &&& q.covered_by(k.0, k.1)
    &&& forall|j: (N::R, u32)| #[trigger] m.dom().contains(j) && q.covered_by(j.0, j.1) ==> j.1 <= k.1
}

/// The value of the longest stored prefix that covers `q`, if any covers it.
pub open spec fn longest_match<N: IPNet, V>(m: Map<(N::R, u32), V>, q: N) -> Option<V> {
    if exists|k: (N::R, u32)| is_longest_match(m, q, k) {
        Some(m[choose|k: (N::R, u32)| is_longest_match(m, q, k)])
    } else {
        None
    }
}

/// The referenced value, if any.
pub open spec fn deref_opt<V>(o: Option<&V>) -> Option<V> {
    match o {
        Some(v) => Some(*v),
        None => None,
    }
}

/// A table of network prefixes, each bound to one value.
pub trait PrefixTable<K: IPNet, V>: Sized {
    /// Each stored prefix, as its normalized key, with its value.
    spec fn entries(&self) -> Map<(K::R, u32), V>;

    spec fn well_formed(&self) -> bool;

    /// Binds `value` to the prefix of `ipnet`, ignoring the bits past its
    /// length, and returns the value that was bound to it before.
    fn insert(&mut self, ipnet: K, value: V) -> (r: Option<V>)
        requires
            old(self).well_formed(),
            ipnet.well_formed(),
        ensures
            final(self).well_formed(),
            final(self).entries() == old(self).entries().insert(ipnet.key(), value),
            r == stored(old(self).entries(), ipnet.key()),
    ;

    /// The value of the longest stored prefix that covers `ipnet`.
    fn get_lpm(&self, ipnet: K) -> (r: Option<&V>)
        requires
            self.well_formed(),
            ipnet.well_formed(),
        ensures
            deref_opt(r) == longest_match(self.entries(), ipnet),
    ;
}

/// Values kept in a vector, and an outside map from keys to their positions
/// in it: each position is in range and used by one key only.
pub open spec fn store_wf<K, V>(slots: Map<K, usize>, values: Seq<V>) -> bool {
    &&& forall|k: K| #[trigger] slots.dom().contains(k) ==> slots[k] < values.len()
    &&& forall|a: K, b: K|
        #[trigger] slots.dom().contains(a) && #[trigger] slots.dom().contains(b) && a != b
            ==> slots[a] != slots[b]
}

/// Each key with the value at its position.
pub open spec fn store_view<K, V>(slots: Map<K, usize>, values: Seq<V>) -> Map<K, V> {
    Map::new(|k: K| slots.dom().contains(k), |k: K| values[slots[k] as int])
}

pub proof fn lemma_store_empty<K, V>(values: Seq<V>)
    ensures
        store_wf(Map::<K, usize>::empty(), values),
        store_view(Map::<K, usize>::empty(), values) == Map::<K, V>::empty(),
{
    assert(store_view(Map::<K, usize>::empty(), values) =~= Map::<K, V>::empty());
}

/// Binding a new key to a value pushed at the end.
pub proof fn lemma_store_push<K, V>(slots: Map<K, usize>, values: Seq<V>, k: K, v: V, i: usize)
    requires
        store_wf(slots, values),
        !slots.dom().contains(k),
        i == values.len(),
    ensures
        store_wf(slots.insert(k, i), values.push(v)),
        store_view(slots.insert(k, i), values.push(v)) == store_view(slots, values).insert(k, v),
{
    let s2 = slots.insert(k, i);
    let w2 = values.push(v);
    assert forall|a: K, b: K|
        #[trigger] s2.dom().contains(a) && #[trigger] s2.dom().contains(b) && a != b
        implies s2[a] != s2[b] by {
        if a != k && b != k {
            assert(slots.dom().contains(a) && slots.dom().contains(b));
        } else if a == k {
            assert(slots.dom().contains(b));
            assert(slots[b] < values.len());
        } else {
            assert(slots.dom().contains(a));
            assert(slots[a] < values.len());
        }
    }
    assert forall|j: K| #[trigger] s2.dom().contains(j) implies s2[j] < w2.len() by {
        if j != k {
            assert(slots.dom().contains(j));
        }
    }
    assert forall|j: K| #[trigger] slots.dom().contains(j) implies w2[slots[j] as int]
        == values[slots[j] as int] by {
        assert(slots[j] < values.len());
    }
    assert(store_view(s2, w2) =~= store_view(slots, values).insert(k, v));
}

/// Replacing the value of a stored key in place.
pub proof fn lemma_store_replace<K, V>(slots: Map<K, usize>, values: Seq<V>, k: K, v: V)
    requires
        store_wf(slots, values),
        slots.dom().contains(k),
    ensures
        store_wf(slots, values.update(slots[k] as int, v)),
        store_view(slots, values.update(slots[k] as int, v)) == store_view(slots, values).insert(k, v),
{
    let w2 = values.update(slots[k] as int, v);
    assert forall|j: K| #[trigger] slots.dom().contains(j) && j != k implies w2[slots[j] as int]
        == values[slots[j] as int] by {
        assert(slots[j] != slots[k]);
    }
    assert(store_view(slots, w2) =~= store_view(slots, values).insert(k, v));
}

/// The longest match read through the positions is the longest match of the
/// values.
pub proof fn lemma_store_longest_match<N: IPNet, V>(
    slots: Map<(N::R, u32), usize>,
    values: Seq<V>,
    q: N,
)
    requires
        store_wf(slots, values),
    ensures
        longest_match(store_view(slots, values), q) == (match longest_match(slots, q) {
            Some(i) => Some(values[i as int]),
            None => None,
        }),
{
    let m = store_view(slots, values);
    assert(m.dom() =~= slots.dom());
    if exists|k: (N::R, u32)| is_longest_match(slots, q, k) {
        let k1 = choose|k: (N::R, u32)| is_longest_match(slots, q, k);
        assert(is_longest_match(m, q, k1));
        let k2 = choose|k: (N::R, u32)| is_longest_match(m, q, k);
        assert(slots.dom().contains(k2));
        assert(k1.1 == k2.1);
        q.lemma_cover_unique(k1.0, k2.0, k1.1);
        assert(k1 == k2);
    } else {
        assert forall|k: (N::R, u32)| !is_longest_match(m, q, k) by {
            if is_longest_match(m, q, k) {
                assert(is_longest_match(slots, q, k));
            }
        }
    }
}

/// A longest stored prefix gives the longest match.
pub proof fn lemma_longest_match_at<N: IPNet, V>(m: Map<(N::R, u32), V>, q: N, k: (N::R, u32))
    requires
        is_longest_match(m, q, k),
    ensures
        longest_match(m, q) == Some(m[k]),
{
    let c = choose|j: (N::R, u32)| is_longest_match(m, q, j);
    assert(c.1 == k.1);
    q.lemma_cover_unique(c.0, k.0, k.1);
}

} // verus!
