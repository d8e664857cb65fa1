//! Internet addresses, held as the integers their octets spell.

use vstd::prelude::*;

use crate::codec::be_bytes;

verus! {

/// An IPv4 address; `bits` is the address as one big-endian number.
#[derive(Clone, Copy, Debug, PartialEq, Eq, Hash, Structural)]
pub struct Ipv4Address {
    pub bits: u32,
}

/// An IPv6 address; `bits` is the address as one big-endian number.
#[derive(Clone, Copy, Debug, PartialEq, Eq, Hash, Structural)]
pub struct Ipv6Address {
    pub bits: u128,
}

/// Either kind of IP address.
#[derive(Clone, Copy, Debug, PartialEq, Eq, Hash, Structural)]
pub enum IpAddress {
    V4(Ipv4Address),
    V6(Ipv6Address),
}

/// An IP address and a port.
#[derive(Clone, Copy, Debug, PartialEq, Eq, Hash, Structural)]
pub struct SocketAddress {
    pub ip: IpAddress,
    pub port: u16,
}

/// The value of the top 96 bits of an IPv4-mapped IPv6 address, `::ffff:0:0/96`.
pub open spec fn mapped_prefix() -> nat {
    0xffff_0000_0000
}

impl Ipv4Address {
    /// The four octets, most significant first.
    pub open spec fn octets(self) -> Seq<u8> {
        be_bytes(self.bits as nat, 4)
    }

    /// The address `a.b.c.d`.
    pub fn new(a: u8, b: u8, c: u8, d: u8) -> (r: Ipv4Address)
        ensures
            r.bits == a * 0x100_0000 + b * 0x1_0000 + c * 0x100 + d,
    {
        Ipv4Address {
            bits: (a as u32) * 0x100_0000 + (b as u32) * 0x1_0000 + (c as u32) * 0x100 + (d as u32),
        }
    }

    /// The IPv4-mapped IPv6 address `::ffff:a.b.c.d`.
    pub fn to_ipv6_mapped(&self) -> (r: Ipv6Address)
        ensures
            r.bits == mapped_prefix() + self.bits,
    {
        Ipv6Address { bits: 0xffff_0000_0000u128 + self.bits as u128 }
    }
}

impl Ipv6Address {
    /// The sixteen octets, most significant first.
    pub open spec fn octets(self) -> Seq<u8> {
        be_bytes(self.bits as nat, 16)
    }

    /// True for an IPv4-mapped address, `::ffff:a.b.c.d`.
    pub open spec fn is_ipv4_mapped(self) -> bool {
        self.bits as nat / 0x1_0000_0000 == 0xffff
    }

    /// The IPv4 address that an IPv4-mapped address stands for, or `None`
    /// for any other address.
    pub fn to_ipv4_mapped(&self) -> (r: Option<Ipv4Address>)
        ensures
            r is Some <==> self.is_ipv4_mapped(),
            r matches Some(v4) ==> v4.bits == self.bits % 0x1_0000_0000,
    {
        if self.bits / 0x1_0000_0000 == 0xffff {
            Some(Ipv4Address { bits: (self.bits % 0x1_0000_0000) as u32 })
        } else {
            None
        }
    }
}

impl IpAddress {
    pub fn is_ipv4(&self) -> (r: bool)
        ensures
            r == (*self is V4),
    {
        match self {
            IpAddress::V4(_) => true,
            IpAddress::V6(_) => false,
        }
    }

    pub fn is_ipv6(&self) -> (r: bool)
        ensures
            r == (*self is V6),
    {
        match self {
            IpAddress::V4(_) => false,
            IpAddress::V6(_) => true,
        }
    }
}

impl SocketAddress {
    pub fn new(ip: IpAddress, port: u16) -> (r: SocketAddress)
        ensures
            r.ip == ip,
            r.port == port,
    {
        SocketAddress { ip, port }
    }
}

} // verus!
