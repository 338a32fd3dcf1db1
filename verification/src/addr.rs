//! Network addresses as plain integers.

use vstd::prelude::*;

verus! {

/// An IPv4 address, held as its 32-bit big-endian value.
#[derive(Clone, Copy, Debug, PartialEq, Eq, Structural, Hash)]
pub struct Ipv4Address {
    pub bits: u32,
}

/// An IPv6 address, held as its 128-bit big-endian value.
#[derive(Clone, Copy, Debug, PartialEq, Eq, Structural, Hash)]
pub struct Ipv6Address {
    pub bits: u128,
}

/// An address of either family.
#[derive(Clone, Copy, Debug, PartialEq, Eq, Structural, Hash)]
pub enum IpAddress {
    V4(Ipv4Address),
    V6(Ipv6Address),
}

/// An IP address with a port.
#[derive(Clone, Copy, Debug, PartialEq, Eq, Structural, Hash)]
pub struct SocketAddress {
    pub ip: IpAddress,
    pub port: u16,
}

/// The destination of a flow: a numeric endpoint, or a domain name with a port.
#[derive(Clone, Debug, PartialEq, Eq)]
pub enum Address {
    SocketAddress(SocketAddress),
    DomainNameAddress(String, u16),
}

/// What an `Address` is, with the domain as a sequence of characters.
pub enum AddressView {
    SocketAddress(SocketAddress),
    DomainNameAddress(Seq<char>, u16),
}

impl View for Address {
    type V = AddressView;

    open spec fn view(&self) -> AddressView {
        match *self {
            Address::SocketAddress(a) => AddressView::SocketAddress(a),
            Address::DomainNameAddress(d, p) => AddressView::DomainNameAddress(d@, p),
        }
    }
}

/// The 32-bit value of the dotted quad `a.b.c.d`.
pub open spec fn quad(a: u8, b: u8, c: u8, d: u8) -> int {
    a * 16777216 + b * 65536 + c * 256 + d
}

impl Ipv4Address {
    /// The address `a.b.c.d`.
    pub fn from_octets(a: u8, b: u8, c: u8, d: u8) -> (ip: Ipv4Address)
        ensures
            ip.bits == quad(a, b, c, d),
    {
        let hi: u32 = (a as u32) * 16777216 + (b as u32) * 65536;
        let lo: u32 = (c as u32) * 256 + (d as u32);
        Ipv4Address { bits: hi + lo }
    }

    /// The four octets, most significant first.
    pub fn octets(&self) -> (o: [u8; 4])
        ensures
            quad(o[0], o[1], o[2], o[3]) == self.bits,
    {
        let a: u8 = (self.bits / 16777216) as u8;
        let b: u8 = ((self.bits / 65536) % 256) as u8;
        let c: u8 = ((self.bits / 256) % 256) as u8;
        let d: u8 = (self.bits % 256) as u8;
        [a, b, c, d]
    }
}

impl Address {
    /// A copy of this address.
    pub fn duplicate(&self) -> (r: Address)
        ensures
            r@ == self@,
    {
        match self {
            Address::SocketAddress(a) => Address::SocketAddress(*a),
            Address::DomainNameAddress(d, p) => Address::DomainNameAddress(d.clone(), *p),
        }
    }
}

} // verus!
