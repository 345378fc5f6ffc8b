//! Network keys of the two address families and their masking rules.
use vstd::prelude::*;

use crate::IPNet;

verus! {

/// The netmask of a prefix of `len` bits in a 32-bit address.
pub open spec fn mask_v4(len: u32) -> u32 {
    if len == 0 {
        0u32
    } else {
        (!0u32) << ((32 - len) as u32)
    }
}

/// The netmask of a prefix of `len` bits in a 128-bit address.
pub open spec fn mask_v6(len: u32) -> u128 {
    if len == 0 {
        0u128
    } else {
        (!0u128) << ((128 - len) as u128)
    }
}

/// `(net, plen)` covers the address `addr` taken with length `len`.
pub open spec fn covers_v4(net: u32, plen: u32, addr: u32, len: u32) -> bool {
    plen <= len && net == addr & mask_v4(plen)
}

/// `(net, plen)` covers the address `addr` taken with length `len`.
pub open spec fn covers_v6(net: u128, plen: u32, addr: u128, len: u32) -> bool {
    plen <= len && net == addr & mask_v6(plen)
}

pub fn netmask_v4(len: u32) -> (r: u32)
    requires
        len <= 32,
    ensures
        r == mask_v4(len),
{
    if len == 0 {
        0
    } else {
        (!0u32) << (32 - len)
    }
}

pub fn netmask_v6(len: u32) -> (r: u128)
    requires
        len <= 128,
    ensures
        r == mask_v6(len),
{
    if len == 0 {
        0
    } else {
        (!0u128) << (128 - len)
    }
}

/// Masking to a length and then to a shorter one is masking to the shorter.
pub proof fn lemma_mask_v4_narrow(a: u32, short: u32, long: u32)
    requires
        short <= long <= 32,
    ensures
        (a & mask_v4(long)) & mask_v4(short) == a & mask_v4(short),
{
    if short == 0 {
        assert((a & mask_v4(long)) & 0u32 == 0u32) by (bit_vector);
        assert(a & 0u32 == 0u32) by (bit_vector);
    } else {
        assert(((a & ((!0u32) << ((32 - long) as u32))) & ((!0u32) << ((32 - short) as u32)))
            == a & ((!0u32) << ((32 - short) as u32))) by (bit_vector)
            requires
                1 <= short <= long <= 32,
        ;
    }
}

/// Masking to a length and then to a shorter one is masking to the shorter.
pub proof fn lemma_mask_v6_narrow(a: u128, short: u32, long: u32)
    requires
        short <= long <= 128,
    ensures
        (a & mask_v6(long)) & mask_v6(short) == a & mask_v6(short),
{
    if short == 0 {
        assert((a & mask_v6(long)) & 0u128 == 0u128) by (bit_vector);
        assert(a & 0u128 == 0u128) by (bit_vector);
    } else {
        let s = short as u128;
        let l = long as u128;
        assert(((a & ((!0u128) << ((128 - l) as u128))) & ((!0u128) << ((128 - s) as u128)))
            == a & ((!0u128) << ((128 - s) as u128))) by (bit_vector)
            requires
                1 <= s <= l <= 128,
        ;
    }
}

/// An IPv4 network: address bits, most significant first, and a prefix length.
#[derive(Clone, Copy, Debug, PartialEq, Eq)]
pub struct Ipv4Prefix {
    pub addr: u32,
    pub len: u8,
}

/// An IPv6 network: address bits, most significant first, and a prefix length.
#[derive(Clone, Copy, Debug, PartialEq, Eq)]
pub struct Ipv6Prefix {
    pub addr: u128,
    pub len: u8,
}

impl Ipv4Prefix {
    /// The network `addr/len`, or `None` where `len` exceeds 32.
    pub fn new(addr: u32, len: u8) -> (r: Option<Ipv4Prefix>)
        ensures
            len <= 32 ==> r == Some(Ipv4Prefix { addr, len }),
            len > 32 ==> r is None,
    {
        if len <= 32 {
            Some(Ipv4Prefix { addr, len })
        } else {
            None
        }
    }
}

impl Ipv6Prefix {
    /// The network `addr/len`, or `None` where `len` exceeds 128.
    pub fn new(addr: u128, len: u8) -> (r: Option<Ipv6Prefix>)
        ensures
            len <= 128 ==> r == Some(Ipv6Prefix { addr, len }),
            len > 128 ==> r is None,
    {
        if len <= 128 {
            Some(Ipv6Prefix { addr, len })
        } else {
            None
        }
    }
}

impl IPNet for Ipv4Prefix {
    type R = u32;

    open spec fn well_formed(&self) -> bool {
        self.len <= 32
    }

    open spec fn key(&self) -> (u32, u32) {
        (self.addr & mask_v4(self.len as u32), self.len as u32)
    }

    open spec fn covered_by(&self, net: u32, len: u32) -> bool {
        covers_v4(net, len, self.addr, self.len as u32)
    }

    proof fn lemma_cover_unique(&self, a: u32, b: u32, len: u32) {
    }

    proof fn lemma_covered_by_own_key(&self) {
        lemma_mask_v4_narrow(self.addr, self.len as u32, self.len as u32);
    }

    fn network_and_prefix(&self) -> (r: (u32, u32)) {
        (self.addr & netmask_v4(self.len as u32), self.len as u32)
    }
}

impl IPNet for Ipv6Prefix {
    type R = u128;

    open spec fn well_formed(&self) -> bool {
        self.len <= 128
    }

    open spec fn key(&self) -> (u128, u32) {
        (self.addr & mask_v6(self.len as u32), self.len as u32)
    }

    open spec fn covered_by(&self, net: u128, len: u32) -> bool {
        covers_v6(net, len, self.addr, self.len as u32)
    }

    proof fn lemma_cover_unique(&self, a: u128, b: u128, len: u32) {
    }

    proof fn lemma_covered_by_own_key(&self) {
        lemma_mask_v6_narrow(self.addr, self.len as u32, self.len as u32);
    }

    fn network_and_prefix(&self) -> (r: (u128, u32)) {
        (self.addr & netmask_v6(self.len as u32), self.len as u32)
    }
}

} // verus!
