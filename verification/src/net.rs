//! Network addresses.

use crate::wire;
use vstd::prelude::*;

verus! {

/// An IPv4 address; the first octet is the most significant.
#[derive(Debug, Clone, Copy, PartialEq, Eq, Structural, Hash)]
pub struct Ipv4Addr {
    pub bits: u32,
}

/// An IPv6 address: its first and its last eight octets.
#[derive(Debug, Clone, Copy, PartialEq, Eq, Structural, Hash)]
pub struct Ipv6Addr {
    pub high: u64,
    pub low: u64,
}

#[derive(Debug, Clone, Copy, PartialEq, Eq, Structural, Hash)]
pub enum IpAddr {
    V4(Ipv4Addr),
    V6(Ipv6Addr),
}

/// An address and a TCP port.
#[derive(Debug, Clone, Copy, PartialEq, Eq, Structural, Hash)]
pub struct SocketAddr {
    pub ip: IpAddr,
    pub port: u16,
}

/// A hardware address.
#[derive(Debug, Clone, Copy, PartialEq, Eq, Structural, Hash)]
pub struct MacAddr(pub u8, pub u8, pub u8, pub u8, pub u8, pub u8);

impl Ipv4Addr {
    /// The octets, in network order.
    pub open spec fn octets(self) -> Seq<u8> {
        wire::be32(self.bits as int)
    }
}

impl Ipv6Addr {
    /// The octets, in network order.
    pub open spec fn octets(self) -> Seq<u8> {
        wire::be64(self.high as int) + wire::be64(self.low as int)
    }
}

impl MacAddr {
    /// The octets, in order.
    pub open spec fn octets(self) -> Seq<u8> {
        seq![self.0, self.1, self.2, self.3, self.4, self.5]
    }

    /// The all-zero address.
    pub fn zero() -> (r: Self)
        ensures
            r == MacAddr(0, 0, 0, 0, 0, 0),
    {
        MacAddr(0, 0, 0, 0, 0, 0)
    }
}

/// Both addresses are of one family.
pub open spec fn same_family(a: SocketAddr, b: SocketAddr) -> bool {
    (a.ip is V4) == (b.ip is V4)
}

impl SocketAddr {
    /// Whether the address is an IPv4 address.
    pub fn is_ipv4(&self) -> (r: bool)
        ensures
            r == (self.ip is V4),
    {
        match self.ip {
            IpAddr::V4(_) => true,
            IpAddr::V6(_) => false,
        }
    }
}

} // verus!
