//! Network addresses as plain values.

use vstd::prelude::*;

verus! {

/// An IPv4 address, as its four octets.
#[derive(Debug, Clone, Copy, PartialEq, Eq, Structural)]
pub struct Ipv4Addr(pub u8, pub u8, pub u8, pub u8);

/// An IPv6 address, as its eight 16-bit segments.
#[derive(Debug, Clone, Copy, PartialEq, Eq, Structural)]
pub struct Ipv6Addr(
    pub u16,
    pub u16,
    pub u16,
    pub u16,
    pub u16,
    pub u16,
    pub u16,
    pub u16,
);

/// An IP address of either family.
#[derive(Debug, Clone, Copy, PartialEq, Eq, Structural)]
pub enum IpAddr {
    V4(Ipv4Addr),
    V6(Ipv6Addr),
}

/// An IPv4 address with a port.
#[derive(Debug, Clone, Copy, PartialEq, Eq, Structural)]
pub struct SocketAddrV4 {
    pub ip: Ipv4Addr,
    pub port: u16,
}

/// An IPv6 address with a port, a flow label and a scope.
#[derive(Debug, Clone, Copy, PartialEq, Eq, Structural)]
pub struct SocketAddrV6 {
    pub ip: Ipv6Addr,
    pub port: u16,
    pub flowinfo: u32,
    pub scope_id: u32,
}

/// The address of a socket.
#[derive(Debug, Clone, Copy, PartialEq, Eq, Structural)]
pub enum SocketAddr {
    V4(SocketAddrV4),
    V6(SocketAddrV6),
}

/// The two octets of a 16-bit segment, high octet first.
pub open spec fn segment_octets(segment: u16) -> Seq<u8> {
    seq![(segment / 256) as u8, (segment % 256) as u8]
}

/// The segment whose octets are `high` and `low`.
pub open spec fn octets_segment(high: u8, low: u8) -> u16 {
    (high * 256 + low) as u16
}

impl Ipv4Addr {
    /// The octets in network order.
    pub open spec fn octets_spec(self) -> Seq<u8> {
        seq![self.0, self.1, self.2, self.3]
    }

    pub fn new(a: u8, b: u8, c: u8, d: u8) -> (addr: Ipv4Addr)
        ensures
            addr == Ipv4Addr(a, b, c, d),
    {
        Ipv4Addr(a, b, c, d)
    }

    /// The four octets, in network order.
    pub fn octets(&self) -> (octets: Vec<u8>)
        ensures
            octets@ == self.octets_spec(),
    {
        vec![self.0, self.1, self.2, self.3]
    }
}

impl Ipv6Addr {
    /// The octets in network order.
    pub open spec fn octets_spec(self) -> Seq<u8> {
        segment_octets(self.0) + segment_octets(self.1) + segment_octets(self.2) + segment_octets(
            self.3,
        ) + segment_octets(self.4) + segment_octets(self.5) + segment_octets(self.6)
            + segment_octets(self.7)
    }

    pub fn new(a: u16, b: u16, c: u16, d: u16, e: u16, f: u16, g: u16, h: u16) -> (addr: Ipv6Addr)
        ensures
            addr == Ipv6Addr(a, b, c, d, e, f, g, h),
    {
        Ipv6Addr(a, b, c, d, e, f, g, h)
    }

    /// The sixteen octets, in network order.
    pub fn octets(&self) -> (octets: Vec<u8>)
        ensures
            octets@ == self.octets_spec(),
    {
        let octets = vec![
            (self.0 / 256) as u8,
            (self.0 % 256) as u8,
            (self.1 / 256) as u8,
            (self.1 % 256) as u8,
            (self.2 / 256) as u8,
            (self.2 % 256) as u8,
            (self.3 / 256) as u8,
            (self.3 % 256) as u8,
            (self.4 / 256) as u8,
            (self.4 % 256) as u8,
            (self.5 / 256) as u8,
            (self.5 % 256) as u8,
            (self.6 / 256) as u8,
            (self.6 % 256) as u8,
            (self.7 / 256) as u8,
            (self.7 % 256) as u8,
        ];
        assert(octets@ =~= self.octets_spec());
        octets
    }
}

impl IpAddr {
    /// The octets in network order: four for IPv4, sixteen for IPv6.
    pub open spec fn octets_spec(self) -> Seq<u8> {
        match self {
            IpAddr::V4(ip) => ip.octets_spec(),
            IpAddr::V6(ip) => ip.octets_spec(),
        }
    }
}

impl SocketAddr {
    /// The IP address.
    pub open spec fn ip_spec(self) -> IpAddr {
        match self {
            SocketAddr::V4(addr) => IpAddr::V4(addr.ip),
            SocketAddr::V6(addr) => IpAddr::V6(addr.ip),
        }
    }

    /// The port.
    pub open spec fn port_spec(self) -> u16 {
        match self {
            SocketAddr::V4(addr) => addr.port,
            SocketAddr::V6(addr) => addr.port,
        }
    }

    /// The same address with another port.
    pub open spec fn with_port(self, port: u16) -> SocketAddr {
        match self {
            SocketAddr::V4(addr) => SocketAddr::V4(SocketAddrV4 { port, ..addr }),
            SocketAddr::V6(addr) => SocketAddr::V6(SocketAddrV6 { port, ..addr }),
        }
    }

    /// The IP address.
    pub fn ip(&self) -> (ip: IpAddr)
        ensures
            ip == self.ip_spec(),
    {
        match self {
            SocketAddr::V4(addr) => IpAddr::V4(addr.ip),
            SocketAddr::V6(addr) => IpAddr::V6(addr.ip),
        }
    }

    /// The port.
    pub fn port(&self) -> (port: u16)
        ensures
            port == self.port_spec(),
    {
        match self {
            SocketAddr::V4(addr) => addr.port,
            SocketAddr::V6(addr) => addr.port,
        }
    }

    /// Replaces the port and keeps everything else.
    pub fn set_port(&mut self, port: u16)
        ensures
            *final(self) == old(self).with_port(port),
    {
        *self = match *self {
            SocketAddr::V4(addr) => SocketAddr::V4(SocketAddrV4 { ip: addr.ip, port }),
            SocketAddr::V6(addr) => SocketAddr::V6(
                SocketAddrV6 {
                    ip: addr.ip,
                    port,
                    flowinfo: addr.flowinfo,
                    scope_id: addr.scope_id,
                },
            ),
        };
    }
}

} // verus!
