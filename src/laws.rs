//! What holds of every table that meets the shared contract.
use vstd::prelude::*;

use crate::prefix::{lemma_mask_v4_narrow, lemma_mask_v6_narrow, mask_v4, mask_v6};
use crate::prefix::{Ipv4Prefix, Ipv6Prefix};
use crate::table::{is_longest_match, lemma_longest_match_at, longest_match, stored, PrefixTable};
use crate::IPNet;

verus! {

/// Where some stored prefix covers `q` and none covering it is longer than
/// `bound`, a longest one exists.
proof fn lemma_longest_exists<N: IPNet, V>(m: Map<(N::R, u32), V>, q: N, bound: u32)
    requires
        exists|j: (N::R, u32)| #[trigger] m.dom().contains(j) && q.covered_by(j.0, j.1),
        forall|j: (N::R, u32)| #[trigger] m.dom().contains(j) && q.covered_by(j.0, j.1) ==> j.1 <= bound,
    ensures
        exists|k: (N::R, u32)| is_longest_match(m, q, k),
    decreases bound,
{
    if exists|j: (N::R, u32)| #[trigger] m.dom().contains(j) && q.covered_by(j.0, j.1) && j.1 == bound {
        let k = choose|j: (N::R, u32)| #[trigger] m.dom().contains(j) && q.covered_by(j.0, j.1) && j.1 == bound;
        assert(is_longest_match(m, q, k));
    } else {
        let j = choose|j: (N::R, u32)| #[trigger] m.dom().contains(j) && q.covered_by(j.0, j.1);
        assert(j.1 < bound);
        lemma_longest_exists(m, q, (bound - 1) as u32);
    }
}

/// The answer of a lookup: nothing exactly when no stored prefix covers the
/// query; else the value of a stored prefix that covers it and is at least as
/// long as every other one that does.
pub proof fn lemma_longest_match_v4<V>(m: Map<(u32, u32), V>, q: Ipv4Prefix)
    requires
        q.well_formed(),
    ensures
        longest_match(m, q) is None <==> forall|j: (u32, u32)|
            #[trigger] m.dom().contains(j) ==> !q.covered_by(j.0, j.1),
        longest_match(m, q) is Some ==> exists|k: (u32, u32)|
            is_longest_match(m, q, k) && longest_match(m, q) == Some(m[k]),
{
    if exists|j: (u32, u32)| #[trigger] m.dom().contains(j) && q.covered_by(j.0, j.1) {
        lemma_longest_exists(m, q, 32);
        let k = choose|k: (u32, u32)| is_longest_match(m, q, k);
        lemma_longest_match_at(m, q, k);
    }
}

/// The answer of a lookup: nothing exactly when no stored prefix covers the
/// query; else the value of a stored prefix that covers it and is at least as
/// long as every other one that does.
pub proof fn lemma_longest_match_v6<V>(m: Map<(u128, u32), V>, q: Ipv6Prefix)
    requires
        q.well_formed(),
    ensures
        longest_match(m, q) is None <==> forall|j: (u128, u32)|
            #[trigger] m.dom().contains(j) ==> !q.covered_by(j.0, j.1),
        longest_match(m, q) is Some ==> exists|k: (u128, u32)|
            is_longest_match(m, q, k) && longest_match(m, q) == Some(m[k]),
{
    if exists|j: (u128, u32)| #[trigger] m.dom().contains(j) && q.covered_by(j.0, j.1) {
        lemma_longest_exists(m, q, 128);
        let k = choose|k: (u128, u32)| is_longest_match(m, q, k);
        lemma_longest_match_at(m, q, k);
    }
}

/// Inserting the same prefix twice leaves one entry for it, holding the
/// second value; the second insert hands back the first value.
pub proof fn lemma_overwrite<N: IPNet, V>(m: Map<(N::R, u32), V>, q: N, first: V, second: V)
    ensures
        stored(m.insert(q.key(), first), q.key()) == Some(first),
        m.insert(q.key(), first).insert(q.key(), second) == m.insert(q.key(), second),
        m.insert(q.key(), first).insert(q.key(), second).dom() == m.insert(q.key(), first).dom(),
{
    assert(m.insert(q.key(), first).insert(q.key(), second) =~= m.insert(q.key(), second));
}

/// Bits past the prefix length make no difference: the network with them
/// cleared has the same key, and inserting either gives the same table.
pub proof fn lemma_host_bits_ignored_v4<V>(m: Map<(u32, u32), V>, addr: u32, len: u8, v: V)
    requires
        len <= 32,
    ensures
        (Ipv4Prefix { addr: addr & mask_v4(len as u32), len }).key() == (Ipv4Prefix { addr, len }).key(),
        m.insert((Ipv4Prefix { addr: addr & mask_v4(len as u32), len }).key(), v)
            == m.insert((Ipv4Prefix { addr, len }).key(), v),
{
    lemma_mask_v4_narrow(addr, len as u32, len as u32);
}

/// Bits past the prefix length make no difference: the network with them
/// cleared has the same key, and inserting either gives the same table.
pub proof fn lemma_host_bits_ignored_v6<V>(m: Map<(u128, u32), V>, addr: u128, len: u8, v: V)
    requires
        len <= 128,
    ensures
        (Ipv6Prefix { addr: addr & mask_v6(len as u32), len }).key() == (Ipv6Prefix { addr, len }).key(),
        m.insert((Ipv6Prefix { addr: addr & mask_v6(len as u32), len }).key(), v)
            == m.insert((Ipv6Prefix { addr, len }).key(), v),
{
    lemma_mask_v6_narrow(addr, len as u32, len as u32);
}

/// Two tables of any backends that hold the same entries answer every lookup
/// alike, and keep holding the same entries after the same insert.
pub proof fn lemma_backends_agree<N: IPNet, V, A: PrefixTable<N, V>, B: PrefixTable<N, V>>(
    a: A,
    b: B,
    q: N,
    k: N,
    v: V,
)
    requires
        a.entries() == b.entries(),
    ensures
        longest_match(a.entries(), q) == longest_match(b.entries(), q),
        a.entries().insert(k.key(), v) == b.entries().insert(k.key(), v),
        stored(a.entries(), k.key()) == stored(b.entries(), k.key()),
{
}

/// With the default route stored, every lookup finds a value, and the default
/// route's where no longer stored prefix covers the query.
pub proof fn lemma_default_route_v4<V>(m: Map<(u32, u32), V>, q: Ipv4Prefix)
    requires
        q.well_formed(),
        m.dom().contains((0u32, 0u32)),
    ensures
        longest_match(m, q) is Some,
        (forall|j: (u32, u32)| #[trigger] m.dom().contains(j) && j.1 > 0 ==> !q.covered_by(j.0, j.1))
            ==> longest_match(m, q) == Some(m[(0u32, 0u32)]),
{
    let a = q.addr;
    assert(a & 0u32 == 0u32) by (bit_vector);
    assert(q.covered_by(0u32, 0u32));
    lemma_longest_match_v4(m, q);
    if forall|j: (u32, u32)| #[trigger] m.dom().contains(j) && j.1 > 0 ==> !q.covered_by(j.0, j.1) {
        assert(is_longest_match(m, q, (0u32, 0u32)));
        lemma_longest_match_at(m, q, (0u32, 0u32));
    }
}

/// With the default route stored, every lookup finds a value, and the default
/// route's where no longer stored prefix covers the query.
pub proof fn lemma_default_route_v6<V>(m: Map<(u128, u32), V>, q: Ipv6Prefix)
    requires
        q.well_formed(),
        m.dom().contains((0u128, 0u32)),
    ensures
        longest_match(m, q) is Some,
        (forall|j: (u128, u32)| #[trigger] m.dom().contains(j) && j.1 > 0 ==> !q.covered_by(j.0, j.1))
            ==> longest_match(m, q) == Some(m[(0u128, 0u32)]),
{
    let a = q.addr;
    assert(a & 0u128 == 0u128) by (bit_vector);
    assert(q.covered_by(0u128, 0u32));
    lemma_longest_match_v6(m, q);
    if forall|j: (u128, u32)| #[trigger] m.dom().contains(j) && j.1 > 0 ==> !q.covered_by(j.0, j.1) {
        assert(is_longest_match(m, q, (0u128, 0u32)));
        lemma_longest_match_at(m, q, (0u128, 0u32));
    }
}

/// A stored host route answers the lookup of its own address; for any other
/// address the lookup is as if the host route were not there.
pub proof fn lemma_host_route_v4<V>(m: Map<(u32, u32), V>, a: u32, b: u32)
    requires
        m.dom().contains((a, 32u32)),
        a != b,
    ensures
        longest_match(m, Ipv4Prefix { addr: a, len: 32 }) == Some(m[(a, 32u32)]),
        longest_match(m, Ipv4Prefix { addr: b, len: 32 })
            == longest_match(m.remove((a, 32u32)), Ipv4Prefix { addr: b, len: 32 }),
{
    assert(a & ((!0u32) << 0u32) == a) by (bit_vector);
    assert(b & ((!0u32) << 0u32) == b) by (bit_vector);
    let qa = Ipv4Prefix { addr: a, len: 32 };
    let qb = Ipv4Prefix { addr: b, len: 32 };
    assert(is_longest_match(m, qa, (a, 32u32)));
    lemma_longest_match_at(m, qa, (a, 32u32));
    let r = m.remove((a, 32u32));
    assert forall|k: (u32, u32)| is_longest_match(m, qb, k) <==> is_longest_match(r, qb, k) by {
        if is_longest_match(r, qb, k) {
            assert forall|j: (u32, u32)| #[trigger] m.dom().contains(j) && qb.covered_by(j.0, j.1)
                implies j.1 <= k.1 by {
                assert(r.dom().contains(j));
            }
        }
    }
    if exists|k: (u32, u32)| is_longest_match(m, qb, k) {
        let k = choose|k: (u32, u32)| is_longest_match(m, qb, k);
        lemma_longest_match_at(m, qb, k);
        lemma_longest_match_at(r, qb, k);
    }
}

/// A stored host route answers the lookup of its own address; for any other
/// address the lookup is as if the host route were not there.
pub proof fn lemma_host_route_v6<V>(m: Map<(u128, u32), V>, a: u128, b: u128)
    requires
        m.dom().contains((a, 128u32)),
        a != b,
    ensures
        longest_match(m, Ipv6Prefix { addr: a, len: 128 }) == Some(m[(a, 128u32)]),
        longest_match(m, Ipv6Prefix { addr: b, len: 128 })
            == longest_match(m.remove((a, 128u32)), Ipv6Prefix { addr: b, len: 128 }),
{
    assert(a & ((!0u128) << 0u128) == a) by (bit_vector);
    assert(b & ((!0u128) << 0u128) == b) by (bit_vector);
    let qa = Ipv6Prefix { addr: a, len: 128 };
    let qb = Ipv6Prefix { addr: b, len: 128 };
    assert(is_longest_match(m, qa, (a, 128u32)));
    lemma_longest_match_at(m, qa, (a, 128u32));
    let r = m.remove((a, 128u32));
    assert forall|k: (u128, u32)| is_longest_match(m, qb, k) <==> is_longest_match(r, qb, k) by {
        if is_longest_match(r, qb, k) {
            assert forall|j: (u128, u32)| #[trigger] m.dom().contains(j) && qb.covered_by(j.0, j.1)
                implies j.1 <= k.1 by {
                assert(r.dom().contains(j));
            }
        }
    }
    if exists|k: (u128, u32)| is_longest_match(m, qb, k) {
        let k = choose|k: (u128, u32)| is_longest_match(m, qb, k);
        lemma_longest_match_at(m, qb, k);
        lemma_longest_match_at(r, qb, k);
    }
}

} // verus!
