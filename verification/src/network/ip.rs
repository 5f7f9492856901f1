//! Arithmetic on addresses.
use vstd::arithmetic::power2;
use vstd::prelude::*;
use crate::network::address;
use crate::network::address::{power_u128, Ipv4Addr, Ipv4Network, Ipv6Addr, Ipv6Network};

verus! {

/// Addresses a number further on.
pub trait AddIP<N>: Sized {
    /// The number of the address.
    spec fn number(self) -> int;

    /// The distance.
    spec fn distance(n: N) -> int;

    /// The highest address.
    spec fn highest() -> int;

    /// The address that many further on.
    fn add(self, n: N) -> (r: Self)
        requires
            self.number() + Self::distance(n) <= Self::highest(),
        ensures
            r.number() == self.number() + Self::distance(n),
    ;
}

/// Addresses a number further back.
pub trait SubIP<N>: Sized {
    /// The number of the address.
    spec fn place(self) -> int;

    /// The distance.
    spec fn span(n: N) -> int;

    /// The address that many further back.
    fn sub(self, n: N) -> (r: Self)
        requires
            Self::span(n) <= self.place(),
        ensures
            r.place() == self.place() - Self::span(n),
    ;
}

impl AddIP<u32> for Ipv4Addr {
    open spec fn number(self) -> int {
        self.bits as int
    }

    open spec fn distance(n: u32) -> int {
        n as int
    }

    open spec fn highest() -> int {
        u32::MAX as int
    }

    fn add(self, n: u32) -> (r: Self) {
        Ipv4Addr { bits: self.bits + n }
    }
}

impl SubIP<u32> for Ipv4Addr {
    open spec fn place(self) -> int {
        self.bits as int
    }

    open spec fn span(n: u32) -> int {
        n as int
    }

    fn sub(self, n: u32) -> (r: Self) {
        Ipv4Addr { bits: self.bits - n }
    }
}

impl AddIP<u128> for Ipv6Addr {
    open spec fn number(self) -> int {
        self.bits as int
    }

    open spec fn distance(n: u128) -> int {
        n as int
    }

    open spec fn highest() -> int {
        u128::MAX as int
    }

    fn add(self, n: u128) -> (r: Self) {
        Ipv6Addr { bits: self.bits + n }
    }
}

impl SubIP<u128> for Ipv6Addr {
    open spec fn place(self) -> int {
        self.bits as int
    }

    open spec fn span(n: u128) -> int {
        n as int
    }

    fn sub(self, n: u128) -> (r: Self) {
        Ipv6Addr { bits: self.bits - n }
    }
}

/// The network of the same length that begins where one of that length from the address ends.
/// After the last address comes the first.
pub fn next_ipv4_network(net: Ipv4Network) -> (r: Result<Ipv4Network, String>)
    requires
        0 < net.prefix <= 32,
    ensures
        r matches Ok(n) && n.prefix == net.prefix && n.ip.bits == (net.ip.bits + address::block4(
            net.prefix,
        )) % 0x1_0000_0000,
{
    let size: u128 = power_u128(32 - net.prefix);
    proof {
        address::lemma_powers();
        power2::lemma_pow2_strictly_increases((32 - net.prefix) as nat, 32);
    }
    let next: u64 = net.ip.bits as u64 + size as u64;
    let bits: u32 = (next % 0x1_0000_0000) as u32;
    Ok(Ipv4Network { ip: Ipv4Addr { bits }, prefix: net.prefix })
}

/// The network of the same length that begins where one of that length from the address ends.
/// After the last address comes the first.
pub fn next_ipv6_network(net: Ipv6Network) -> (r: Result<Ipv6Network, String>)
    requires
        0 < net.prefix <= 128,
    ensures
        r matches Ok(n) && n.prefix == net.prefix && n.ip.bits == (net.ip.bits + address::block6(
            net.prefix,
        )) % (u128::MAX + 1),
{
    let size: u128 = power_u128(128 - net.prefix);
    let bits: u128 = net.ip.bits.wrapping_add(size);
    Ok(Ipv6Network { ip: Ipv6Addr { bits }, prefix: net.prefix })
}

/// The next network is the neighbour, except at the end of all addresses: an aligned network
/// is followed by the one that begins right after its last address.
pub proof fn law_next_network_follows(net: Ipv4Network)
    requires
        0 < net.prefix <= 32,
        net.ip.bits == net.first(),
        net.last() < u32::MAX,
    ensures
        (net.ip.bits + address::block4(net.prefix)) % 0x1_0000_0000 == net.last() + 1,
        !net.holds(
            Ipv4Addr {
                bits: ((net.ip.bits + address::block4(net.prefix)) % 0x1_0000_0000) as u32,
            },
        ),
{
    address::lemma_first4(net);
}

/// The network after a network begins where that one ends, and is as large.
pub proof fn law_next_network_begins_where_it_ends(net: Ipv4Network, r: Result<Ipv4Network, String>)
    requires
        call_ensures(next_ipv4_network, (net,), r),
        0 < net.prefix <= 32,
        net.ip.bits + address::block4(net.prefix) < 0x1_0000_0000,
    ensures
        r matches Ok(n) && n.prefix == net.prefix && n.ip.bits - net.ip.bits == power2::pow2(
            (32 - net.prefix) as nat,
        ),
{
}

} // verus!
