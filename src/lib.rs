//! Longest-prefix-match tables for IPv4 and IPv6 networks.
//!
//! A table binds network prefixes to values and answers, for a network, the
//! value of the longest stored prefix that covers it. `PrefixTable` states
//! that contract over a map from normalized prefixes to values; `V2` meets it
//! with a prefix trie, for both address families.
use vstd::prelude::*;

pub mod laws;
pub mod prefix;
pub mod table;
pub mod v2;

pub use prefix::{Ipv4Prefix, Ipv6Prefix};
pub use table::PrefixTable;
pub use v2::V2;

verus! {

/// A network given by its address bits and prefix length.
pub trait IPNet: Sized {
    /// The fixed-width integer that holds the address bits.
    type R;

    /// The length is within the address family's bit width.
    spec fn well_formed(&self) -> bool;

    /// The normalized key: the network bits with everything past the prefix
    /// length cleared, and the prefix length.
    spec fn key(&self) -> (Self::R, u32);

    /// The stored prefix `(net, len)` covers this network: it is no longer,
    /// and `net` equals this network's first `len` bits.
    spec fn covered_by(&self, net: Self::R, len: u32) -> bool;

    /// At most one prefix of a given length covers a network.
    proof fn lemma_cover_unique(&self, a: Self::R, b: Self::R, len: u32)
        requires
            self.covered_by(a, len),
            self.covered_by(b, len),
        ensures
            a == b,
    ;

    /// A well-formed network is covered by its own key.
    proof fn lemma_covered_by_own_key(&self)
        requires
            self.well_formed(),
        ensures
            self.covered_by(self.key().0, self.key().1),
    ;

    fn network_and_prefix(&self) -> (r: (Self::R, u32))
        requires
            self.well_formed(),
        ensures
            r == self.key(),
    ;
}

} // verus!
