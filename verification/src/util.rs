//! Socket addresses in the form in which peers exchange them.

use vstd::prelude::*;

use crate::binary_stream;
use crate::binary_stream::{announced_at, BinaryStream};
use crate::endian;
use crate::net;
use crate::net::{IpAddr, Ipv4Addr, Ipv6Addr, SocketAddr, SocketAddrV4, SocketAddrV6};
use crate::packet::Serializable;

verus! {

/// A socket address that can be written to a stream: an IP address and a port.
#[derive(Debug, Clone, Copy, PartialEq, Eq, Structural)]
pub struct SerializableSocketAddr {
    pub ip: IpAddr,
    pub port: u16,
}

impl Default for SerializableSocketAddr {
    fn default() -> (addr: Self)
        ensures
            addr == (SerializableSocketAddr { ip: IpAddr::V4(Ipv4Addr(0, 0, 0, 0)), port: 0 }),
    {
        SerializableSocketAddr { ip: IpAddr::V4(Ipv4Addr::new(0, 0, 0, 0)), port: 0 }
    }
}

/// The segments that `bytes` hold, two bytes each, high byte first.
pub open spec fn short_vec(bytes: Seq<u8>) -> Seq<u16> {
    Seq::new(
        bytes.len() / 2,
        |i: int| net::octets_segment(bytes[2 * i], bytes[2 * i + 1]),
    )
}

/// The IP address with the given octets: IPv6 for sixteen, else IPv4.
pub open spec fn ip_of_octets(octets: Seq<u8>) -> IpAddr {
    if octets.len() == 16 {
        let s = short_vec(octets);
        IpAddr::V6(Ipv6Addr(s[0], s[1], s[2], s[3], s[4], s[5], s[6], s[7]))
    } else {
        IpAddr::V4(Ipv4Addr(octets[0], octets[1], octets[2], octets[3]))
    }
}

/// Couples every two bytes to one segment.
pub fn byte_vec_to_short_vec(bytes: Vec<u8>) -> (segments: Vec<u16>)
    requires
        bytes@.len() % 2 == 0,
    ensures
        segments@ == short_vec(bytes@),
{
    let mut segments: Vec<u16> = vec![];
    let mut i: usize = 0;
    while i < bytes.len()
        invariant
            i <= bytes@.len(),
            i % 2 == 0,
            bytes@.len() % 2 == 0,
            segments@.len() == i / 2,
            forall|j: int|
                0 <= j < segments@.len() ==> segments@[j] == net::octets_segment(
                    bytes@[2 * j],
                    bytes@[2 * j + 1],
                ),
        decreases bytes@.len() - i,
    {
        let high = bytes[i];
        let low = bytes[i + 1];
        // The first byte fills the high half of the segment, the second the low half.
        let segment: u16 = ((high as u16) << 8) | (low as u16);
        assert(((high as u16) << 8) | (low as u16) == (high as u16) * 256 + (low as u16)) by (
            bit_vector);
        segments.push(segment);
        i = i + 2;
    }
    assert(segments@ =~= short_vec(bytes@));
    segments
}

impl Serializable for SerializableSocketAddr {
    open spec fn encoded(&self) -> Seq<u8> {
        endian::le_bytes(self.port as nat, 2) + binary_stream::counted(self.ip.octets_spec())
    }

    open spec fn readable(bytes: Seq<u8>) -> bool {
        &&& bytes.len() >= 2
        &&& binary_stream::counted_readable(bytes.skip(2))
        &&& binary_stream::announced_len(bytes.skip(2)) == 4 || binary_stream::announced_len(
            bytes.skip(2),
        ) == 16
    }

    open spec fn read_len(bytes: Seq<u8>) -> nat {
        6 + binary_stream::announced_len(bytes.skip(2))
    }

    open spec fn read_from(&self, bytes: Seq<u8>) -> bool {
        &&& self.port == endian::le_value(bytes.take(2))
        &&& self.ip == ip_of_octets(binary_stream::counted_content(bytes.skip(2)))
    }

    fn to_stream(&self, stream: &mut BinaryStream) {
        let ip_bytes = match self.ip {
            IpAddr::V4(ip) => ip.octets(),
            IpAddr::V6(ip) => ip.octets(),
        };
        stream.write_u16(self.port).unwrap();
        stream.write_byte_vec(&ip_bytes).unwrap();
        assert(stream@ =~= old(stream)@ + self.encoded());
    }

    fn from_stream(stream: &mut BinaryStream) -> (value: Self) {
        let port = stream.read_u16().unwrap();
        let ip_bytes = stream.read_byte_vec().unwrap();
        assert(stream@ =~= old(stream)@.skip(Self::read_len(old(stream)@) as int));
        // Sixteen octets make an IPv6 address.
        let ip = if ip_bytes.len() == 4 {
            IpAddr::V4(Ipv4Addr::new(ip_bytes[0], ip_bytes[1], ip_bytes[2], ip_bytes[3]))
        } else {
            let segments = byte_vec_to_short_vec(ip_bytes);
            IpAddr::V6(
                Ipv6Addr::new(
                    segments[0],
                    segments[1],
                    segments[2],
                    segments[3],
                    segments[4],
                    segments[5],
                    segments[6],
                    segments[7],
                ),
            )
        };
        SerializableSocketAddr::new(ip, port)
    }
}

impl SerializableSocketAddr {
    /// Whether an address can be read from the bytes from `start` on.
    pub fn can_read(bytes: &Vec<u8>, start: usize) -> (readable: bool)
        requires
            start <= bytes@.len(),
        ensures
            readable == Self::readable(bytes@.skip(start as int)),
    {
        if bytes.len() - start < 6 {
            return false;
        }
        let octets = announced_at(bytes, start + 2);
        assert(bytes@.skip(start + 2) =~= bytes@.skip(start as int).skip(2));
        (octets == 4 || octets == 16) && bytes.len() - start - 6 >= octets
    }

    pub fn new(ip: IpAddr, port: u16) -> (addr: Self)
        ensures
            addr == (SerializableSocketAddr { ip, port }),
    {
        SerializableSocketAddr { ip, port }
    }

    /// The IP address and the port of `addr`.
    pub open spec fn of_sock_addr(addr: SocketAddr) -> Self {
        SerializableSocketAddr { ip: addr.ip_spec(), port: addr.port_spec() }
    }

    /// The socket address with this IP address and port, and without flow label
    /// and scope.
    pub open spec fn sock_addr(self) -> SocketAddr {
        match self.ip {
            IpAddr::V4(ip) => SocketAddr::V4(SocketAddrV4 { ip, port: self.port }),
            IpAddr::V6(ip) => SocketAddr::V6(
                SocketAddrV6 { ip, port: self.port, flowinfo: 0, scope_id: 0 },
            ),
        }
    }

    pub fn from_sock_addr(addr: SocketAddr) -> (result: Self)
        ensures
            result == Self::of_sock_addr(addr),
    {
        Self::new(addr.ip(), addr.port())
    }

    pub fn to_sock_addr(&self) -> (addr: SocketAddr)
        ensures
            addr == self.sock_addr(),
    {
        match self.ip {
            IpAddr::V4(ip) => SocketAddr::V4(SocketAddrV4 { ip, port: self.port }),
            IpAddr::V6(ip) => SocketAddr::V6(
                SocketAddrV6 { ip, port: self.port, flowinfo: 0, scope_id: 0 },
            ),
        }
    }
}

} // verus!
