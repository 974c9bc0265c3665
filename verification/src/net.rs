//! Network addresses as plain values. Parsing and printing them is std's
//! `std::net`, which runs outside the library: callers hand these values in.
use vstd::prelude::*;

verus! {

/// An IP address: the 32 bits of an IPv4 address or the 128 bits of an IPv6
/// address, most significant first, as `u32::from` and `u128::from` give them.
#[derive(Clone, Copy, Debug, PartialEq, Eq, Structural)]
pub enum IpAddress {
    V4(u32),
    V6(u128),
}

/// A socket address with the fields that `std::net::SocketAddr` compares.
#[derive(Clone, Copy, Debug, PartialEq, Eq, Structural)]
pub enum SockAddr {
    V4 { ip4: u32, port: u16 },
    V6 { ip6: u128, port: u16, flowinfo: u32, scope_id: u32 },
}

/// The port of a socket address.
pub open spec fn sock_port(a: SockAddr) -> u16 {
    match a {
        SockAddr::V4 { port, .. } => port,
        SockAddr::V6 { port, .. } => port,
    }
}

impl SockAddr {
    /// The port of the address.
    pub fn port(&self) -> (p: u16)
        ensures
            p == sock_port(*self),
    {
        match self {
            SockAddr::V4 { port, .. } => *port,
            SockAddr::V6 { port, .. } => *port,
        }
    }

    /// Whether two addresses are the same (`SocketAddr`'s `==`).
    pub fn same_as(&self, other: &SockAddr) -> (b: bool)
        ensures
            b == (*self == *other),
    {
        match (self, other) {
            (SockAddr::V4 { ip4: a, port: p }, SockAddr::V4 { ip4: b, port: q }) => *a == *b && *p
                == *q,
            (
                SockAddr::V6 { ip6: a, port: p, flowinfo: f, scope_id: s },
                SockAddr::V6 { ip6: b, port: q, flowinfo: g, scope_id: t },
            ) => *a == *b && *p == *q && *f == *g && *s == *t,
            _ => false,
        }
    }
}

impl IpAddress {
    /// Whether two IP addresses are the same (`IpAddr`'s `==`).
    pub fn same_as(&self, other: &IpAddress) -> (b: bool)
        ensures
            b == (*self == *other),
    {
        match (self, other) {
            (IpAddress::V4(a), IpAddress::V4(b)) => *a == *b,
            (IpAddress::V6(a), IpAddress::V6(b)) => *a == *b,
            _ => false,
        }
    }
}

} // verus!
