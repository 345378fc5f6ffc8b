//! The prefix-trie backend.
use vstd::prelude::*;

use prefix_trie::PrefixMap;

use crate::prefix::{Ipv4Prefix, Ipv6Prefix};
use crate::table::{
    lemma_store_empty, lemma_store_longest_match, lemma_store_push,
    lemma_store_replace, longest_match, store_view, store_wf, stored, PrefixTable,
};
use crate::IPNet;

verus! {

#[verifier::external_type_specification]
#[verifier::external_body]
#[verifier::reject_recursive_types(P)]
#[verifier::reject_recursive_types(T)]
pub struct ExPrefixMap<P, T>(PrefixMap<P, T>);

/// What an IPv4 prefix map holds: each normalized prefix with its position.
pub uninterp spec fn trie_v4_slots(m: PrefixMap<(u32, u8), usize>) -> Map<(u32, u32), usize>;

/// What an IPv6 prefix map holds: each normalized prefix with its position.
pub uninterp spec fn trie_v6_slots(m: PrefixMap<(u128, u8), usize>) -> Map<(u128, u32), usize>;

/// Relies on PrefixMap::new: the map starts empty.
#[verifier::external_body]
fn trie_v4_new() -> (r: PrefixMap<(u32, u8), usize>)
    ensures
        trie_v4_slots(r).dom().is_empty(),
{
    PrefixMap::new()
}

/// Relies on PrefixMap::get: exact match on the prefix, host bits ignored.
#[verifier::external_body]
fn trie_v4_get(m: &PrefixMap<(u32, u8), usize>, q: &Ipv4Prefix) -> (r: Option<usize>)
    requires
        q.well_formed(),
    ensures
        r == stored(trie_v4_slots(*m), q.key()),
{
    m.get(&(q.addr, q.len)).copied()
}

/// Relies on PrefixMap::insert: binds the prefix, host bits ignored, and
/// returns what was bound to it before.
#[verifier::external_body]
fn trie_v4_insert(m: &mut PrefixMap<(u32, u8), usize>, q: &Ipv4Prefix, i: usize) -> (r: Option<usize>)
    requires
        q.well_formed(),
    ensures
        trie_v4_slots(*final(m)) == trie_v4_slots(*old(m)).insert(q.key(), i),
        r == stored(trie_v4_slots(*old(m)), q.key()),
{
    m.insert((q.addr, q.len), i)
}

/// Relies on PrefixMap::get_lpm: the longest stored prefix that contains `q`.
#[verifier::external_body]
fn trie_v4_lpm(m: &PrefixMap<(u32, u8), usize>, q: &Ipv4Prefix) -> (r: Option<usize>)
    requires
        q.well_formed(),
    ensures
        r == longest_match(trie_v4_slots(*m), *q),
{
    m.get_lpm(&(q.addr, q.len)).map(|e| *e.1)
}

/// Relies on PrefixMap::new: the map starts empty.
#[verifier::external_body]
fn trie_v6_new() -> (r: PrefixMap<(u128, u8), usize>)
    ensures
        trie_v6_slots(r).dom().is_empty(),
{
    PrefixMap::new()
}

/// Relies on PrefixMap::get: exact match on the prefix, host bits ignored.
#[verifier::external_body]
fn trie_v6_get(m: &PrefixMap<(u128, u8), usize>, q: &Ipv6Prefix) -> (r: Option<usize>)
    requires
        q.well_formed(),
    ensures
        r == stored(trie_v6_slots(*m), q.key()),
{
    m.get(&(q.addr, q.len)).copied()
}

/// Relies on PrefixMap::insert: binds the prefix, host bits ignored, and
/// returns what was bound to it before.
#[verifier::external_body]
fn trie_v6_insert(m: &mut PrefixMap<(u128, u8), usize>, q: &Ipv6Prefix, i: usize) -> (r: Option<usize>)
    requires
        q.well_formed(),
    ensures
        trie_v6_slots(*final(m)) == trie_v6_slots(*old(m)).insert(q.key(), i),
        r == stored(trie_v6_slots(*old(m)), q.key()),
{
    m.insert((q.addr, q.len), i)
}

/// Relies on PrefixMap::get_lpm: the longest stored prefix that contains `q`.
#[verifier::external_body]
fn trie_v6_lpm(m: &PrefixMap<(u128, u8), usize>, q: &Ipv6Prefix) -> (r: Option<usize>)
    requires
        q.well_formed(),
    ensures
        r == longest_match(trie_v6_slots(*m), *q),
{
    m.get_lpm(&(q.addr, q.len)).map(|e| *e.1)
}

/// A longest-match table kept in a prefix trie, for addresses held in `R`.
/// The trie maps each prefix to the position of its value in `values`.
#[verifier::reject_recursive_types(R)]
pub struct V2<R, V> {
    map: PrefixMap<(R, u8), usize>,
    values: Vec<V>,
}

impl<V> V2<u32, V> {
    pub closed spec fn slots(&self) -> Map<(u32, u32), usize> {
        trie_v4_slots(self.map)
    }

    /// An empty IPv4 table.
    pub fn new() -> (r: Self)
        ensures
            r.well_formed(),
            r.entries() == Map::<(u32, u32), V>::empty(),
    {
        let r = V2 { map: trie_v4_new(), values: Vec::new() };
        proof {
            assert(r.slots() =~= Map::<(u32, u32), usize>::empty());
            lemma_store_empty::<(u32, u32), V>(r.values@);
        }
        r
    }
}

impl<V> PrefixTable<Ipv4Prefix, V> for V2<u32, V> {
    closed spec fn entries(&self) -> Map<(u32, u32), V> {
        store_view(self.slots(), self.values@)
    }

    closed spec fn well_formed(&self) -> bool {
        store_wf(self.slots(), self.values@)
    }

    fn insert(&mut self, ipnet: Ipv4Prefix, value: V) -> (r: Option<V>) {
        let ghost slots0 = self.slots();
        let ghost values0 = self.values@;
        match trie_v4_get(&self.map, &ipnet) {
            Some(i) => {
                proof {
                    lemma_store_replace(slots0, values0, ipnet.key(), value);
                }
                self.values.push(value);
                let prev = self.values.swap_remove(i);
                assert(self.values@ =~= values0.update(i as int, value));
                Some(prev)
            },
            None => {
                let i = self.values.len();
                proof {
                    lemma_store_push(slots0, values0, ipnet.key(), value, i);
                }
                self.values.push(value);
                trie_v4_insert(&mut self.map, &ipnet, i);
                None
            },
        }
    }

    fn get_lpm(&self, ipnet: Ipv4Prefix) -> (r: Option<&V>) {
        proof {
            lemma_store_longest_match(self.slots(), self.values@, ipnet);
        }
        match trie_v4_lpm(&self.map, &ipnet) {
            Some(i) => Some(&self.values[i]),
            None => None,
        }
    }
}

impl<V> V2<u128, V> {
    pub closed spec fn slots(&self) -> Map<(u128, u32), usize> {
        trie_v6_slots(self.map)
    }

    /// An empty IPv6 table.
    pub fn new() -> (r: Self)
        ensures
            r.well_formed(),
            r.entries() == Map::<(u128, u32), V>::empty(),
    {
        let r = V2 { map: trie_v6_new(), values: Vec::new() };
        proof {
            assert(r.slots() =~= Map::<(u128, u32), usize>::empty());
            lemma_store_empty::<(u128, u32), V>(r.values@);
        }
        r
    }
}

impl<V> PrefixTable<Ipv6Prefix, V> for V2<u128, V> {
    closed spec fn entries(&self) -> Map<(u128, u32), V> {
        store_view(self.slots(), self.values@)
    }

    closed spec fn well_formed(&self) -> bool {
        store_wf(self.slots(), self.values@)
    }

    fn insert(&mut self, ipnet: Ipv6Prefix, value: V) -> (r: Option<V>) {
        let ghost slots0 = self.slots();
        let ghost values0 = self.values@;
        match trie_v6_get(&self.map, &ipnet) {
            Some(i) => {
                proof {
                    lemma_store_replace(slots0, values0, ipnet.key(), value);
                }
                self.values.push(value);
                let prev = self.values.swap_remove(i);
                assert(self.values@ =~= values0.update(i as int, value));
                Some(prev)
            },
            None => {
                let i = self.values.len();
                proof {
                    lemma_store_push(slots0, values0, ipnet.key(), value, i);
                }
                self.values.push(value);
                trie_v6_insert(&mut self.map, &ipnet, i);
                None
            },
        }
    }

    fn get_lpm(&self, ipnet: Ipv6Prefix) -> (r: Option<&V>) {
        proof {
            lemma_store_longest_match(self.slots(), self.values@, ipnet);
        }
        match trie_v6_lpm(&self.map, &ipnet) {
            Some(i) => Some(&self.values[i]),
            None => None,
        }
    }
}

} // verus!
