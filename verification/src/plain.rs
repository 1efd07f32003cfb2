//! Socket addresses, and lists of them, over the streams of the `plain_binary_stream` crate, for
//! peers that hold one of those.

use plain_binary_stream::BinaryStream as PlainBinaryStream;
use vstd::prelude::*;

use crate::binary_stream;
use crate::endian;
use crate::net::{IpAddr, Ipv4Addr, Ipv6Addr};
use crate::packet;
use crate::packet::{HandshakeResponsePacket, Serializable};
use crate::util::{byte_vec_to_short_vec, SerializableSocketAddr};

verus! {

/// The stream of `plain_binary_stream`. What it holds is known by the two names
/// below.
#[verifier::external_type_specification]
#[verifier::external_body]
pub struct ExPlainBinaryStream(PlainBinaryStream);

/// The bytes that a stream holds, front first.
pub uninterp spec fn plain_bytes(stream: PlainBinaryStream) -> Seq<u8>;

/// Whether a stream is in writing mode.
pub uninterp spec fn plain_writing(stream: PlainBinaryStream) -> bool;

/// `BinaryStream::new` of `plain_binary_stream`: an empty stream in writing mode.
#[verifier::external_body]
fn plain_new() -> (stream: PlainBinaryStream)
    ensures
        plain_writing(stream),
        plain_bytes(stream) == Seq::<u8>::empty(),
{
    PlainBinaryStream::new()
}

/// `BinaryStream::from_bytes` of `plain_binary_stream`: a stream in reading mode
/// that holds a copy of the bytes.
#[verifier::external_body]
fn plain_from_bytes(bytes: &[u8]) -> (stream: PlainBinaryStream)
    ensures
        !plain_writing(stream),
        plain_bytes(stream) == bytes@,
{
    PlainBinaryStream::from_bytes(bytes)
}

/// `BinaryStream::get_buffer_vec` of `plain_binary_stream`: the bytes that the
/// stream holds.
#[verifier::external_body]
fn plain_get_buffer_vec(stream: PlainBinaryStream) -> (bytes: Vec<u8>)
    ensures
        bytes@ == plain_bytes(stream),
{
    stream.get_buffer_vec()
}

/// `BinaryStream::write_u16` of `plain_binary_stream`: appends two bytes, least
/// significant first. It fails in reading mode only.
#[verifier::external_body]
fn plain_write_u16(stream: &mut PlainBinaryStream, val: u16)
    requires
        plain_writing(*old(stream)),
    ensures
        plain_writing(*final(stream)),
        plain_bytes(*final(stream)) == plain_bytes(*old(stream)) + endian::le_bytes(val as nat, 2),
{
    stream.write_u16(val).unwrap()
}

/// `BinaryStream::write_u32` of `plain_binary_stream`: appends four bytes, least
/// significant first. It fails in reading mode only.
#[verifier::external_body]
fn plain_write_u32(stream: &mut PlainBinaryStream, val: u32)
    requires
        plain_writing(*old(stream)),
    ensures
        plain_writing(*final(stream)),
        plain_bytes(*final(stream)) == plain_bytes(*old(stream)) + endian::le_bytes(val as nat, 4),
{
    stream.write_u32(val).unwrap()
}

/// `BinaryStream::write_byte_vec` of `plain_binary_stream`: appends the length in
/// four bytes, then the bytes. It fails in reading mode only.
#[verifier::external_body]
fn plain_write_byte_vec(stream: &mut PlainBinaryStream, val: &Vec<u8>)
    requires
        plain_writing(*old(stream)),
    ensures
        plain_writing(*final(stream)),
        plain_bytes(*final(stream)) == plain_bytes(*old(stream)) + binary_stream::counted(val@),
{
    stream.write_byte_vec(val).unwrap()
}

/// `BinaryStream::read_u16` of `plain_binary_stream`: takes two bytes from the
/// front, least significant first. It fails in writing mode, and panics where
/// they are missing.
#[verifier::external_body]
fn plain_read_u16(stream: &mut PlainBinaryStream) -> (val: u16)
    requires
        !plain_writing(*old(stream)),
        plain_bytes(*old(stream)).len() >= 2,
    ensures
        !plain_writing(*final(stream)),
        plain_bytes(*final(stream)) == plain_bytes(*old(stream)).skip(2),
        val == endian::le_value(plain_bytes(*old(stream)).take(2)),
{
    stream.read_u16().unwrap()
}

/// `BinaryStream::read_u32` of `plain_binary_stream`: takes four bytes from the
/// front, least significant first. It fails in writing mode, and panics where
/// they are missing.
#[verifier::external_body]
fn plain_read_u32(stream: &mut PlainBinaryStream) -> (val: u32)
    requires
        !plain_writing(*old(stream)),
        plain_bytes(*old(stream)).len() >= 4,
    ensures
        !plain_writing(*final(stream)),
        plain_bytes(*final(stream)) == plain_bytes(*old(stream)).skip(4),
        val == endian::le_value(plain_bytes(*old(stream)).take(4)),
{
    stream.read_u32().unwrap()
}

/// `BinaryStream::read_byte_vec` of `plain_binary_stream`: takes a length of four
/// bytes and as many bytes from the front. It fails in writing mode, and panics
/// where they are missing.
#[verifier::external_body]
fn plain_read_byte_vec(stream: &mut PlainBinaryStream) -> (val: Vec<u8>)
    requires
        !plain_writing(*old(stream)),
        binary_stream::counted_readable(plain_bytes(*old(stream))),
    ensures
        !plain_writing(*final(stream)),
        plain_bytes(*final(stream)) == plain_bytes(*old(stream)).skip(
            4 + binary_stream::announced_len(plain_bytes(*old(stream))) as int,
        ),
        val@ == binary_stream::counted_content(plain_bytes(*old(stream))),
{
    stream.read_byte_vec().unwrap()
}

impl SerializableSocketAddr {
    /// Writes the address to a stream.
    pub fn to_plain_stream(&self, stream: &mut PlainBinaryStream)
        requires
            plain_writing(*old(stream)),
        ensures
            plain_writing(*final(stream)),
            plain_bytes(*final(stream)) == plain_bytes(*old(stream)) + self.encoded(),
    {
        let ip_bytes = match self.ip {
            IpAddr::V4(ip) => ip.octets(),
            IpAddr::V6(ip) => ip.octets(),
        };
        plain_write_u16(stream, self.port);
        plain_write_byte_vec(stream, &ip_bytes);
        assert(plain_bytes(*stream) =~= plain_bytes(*old(stream)) + self.encoded());
    }

    /// Reads an address from a stream.
    pub fn from_plain_stream(stream: &mut PlainBinaryStream) -> (addr: Self)
        requires
            !plain_writing(*old(stream)),
            Self::readable(plain_bytes(*old(stream))),
        ensures
            !plain_writing(*final(stream)),
            plain_bytes(*final(stream)) == plain_bytes(*old(stream)).skip(
                Self::read_len(plain_bytes(*old(stream))) as int,
            ),
            addr.read_from(plain_bytes(*old(stream))),
    {
        let port = plain_read_u16(stream);
        let ip_bytes = plain_read_byte_vec(stream);
        assert(plain_bytes(*stream) =~= plain_bytes(*old(stream)).skip(
            Self::read_len(plain_bytes(*old(stream))) as int,
        ));
        let ip = if ip_bytes.len() == 4 {
            IpAddr::V4(Ipv4Addr::new(ip_bytes[0], ip_bytes[1], ip_bytes[2], ip_bytes[3]))
        } else {
            let s = byte_vec_to_short_vec(ip_bytes);
            IpAddr::V6(Ipv6Addr::new(s[0], s[1], s[2], s[3], s[4], s[5], s[6], s[7]))
        };
        SerializableSocketAddr::new(ip, port)
    }

    /// The bytes of the address, written through a stream of
    /// `plain_binary_stream`.
    pub fn to_plain_bytes(&self) -> (bytes: Vec<u8>)
        ensures
            bytes@ == self.encoded(),
    {
        let mut stream = plain_new();
        self.to_plain_stream(&mut stream);
        let bytes = plain_get_buffer_vec(stream);
        assert(bytes@ =~= self.encoded());
        bytes
    }

    /// The address at the front of `bytes`, read through a stream of
    /// `plain_binary_stream`.
    pub fn from_plain_bytes(bytes: &[u8]) -> (addr: Self)
        requires
            Self::readable(bytes@),
        ensures
            addr.read_from(bytes@),
    {
        let mut stream = plain_from_bytes(bytes);
        Self::from_plain_stream(&mut stream)
    }
}

impl HandshakeResponsePacket {
    /// Writes the response to a stream: the number of peers, then their addresses.
    pub fn to_plain_stream(&self, stream: &mut PlainBinaryStream)
        requires
            plain_writing(*old(stream)),
        ensures
            plain_writing(*final(stream)),
            plain_bytes(*final(stream)) == plain_bytes(*old(stream)) + self.encoded(),
    {
        let ghost before = plain_bytes(*stream);
        let peers = &self.peers;
        proof {
            binary_stream::lemma_len_bytes_of_cast(peers.len());
        }
        plain_write_u32(stream, #[verifier::truncate] (peers.len() as u32));
        let mut i: usize = 0;
        while i < peers.len()
            invariant
                i <= peers@.len(),
                plain_writing(*stream),
                plain_bytes(*stream) =~= before + binary_stream::len_bytes(peers@.len())
                    + packet::items_encoded(peers@.take(i as int)),
            decreases peers@.len() - i,
        {
            peers[i].to_plain_stream(stream);
            proof {
                let longer = peers@.take(i + 1);
                assert(longer.drop_last() =~= peers@.take(i as int));
                assert(longer.last() == peers@[i as int]);
            }
            i = i + 1;
        }
        assert(peers@.take(i as int) =~= peers@);
        assert(plain_bytes(*stream) =~= before + self.encoded());
    }

    /// Reads a response from a stream.
    pub fn from_plain_stream(stream: &mut PlainBinaryStream) -> (packet: Self)
        requires
            !plain_writing(*old(stream)),
            Self::readable(plain_bytes(*old(stream))),
        ensures
            !plain_writing(*final(stream)),
            plain_bytes(*final(stream)) == plain_bytes(*old(stream)).skip(
                Self::read_len(plain_bytes(*old(stream))) as int,
            ),
            packet.read_from(plain_bytes(*old(stream))),
    {
        let ghost start = plain_bytes(*stream);
        let ghost bytes = start.skip(4);
        let count = plain_read_u32(stream);
        let mut peers: Vec<SerializableSocketAddr> = Vec::new();
        let mut i: u32 = 0;
        while i < count
            invariant
                i <= count,
                peers@.len() == i,
                packet::items_readable::<SerializableSocketAddr>(bytes, count as nat),
                !plain_writing(*stream),
                packet::items_len::<SerializableSocketAddr>(bytes, i as nat) <= bytes.len(),
                plain_bytes(*stream) == packet::from_item::<SerializableSocketAddr>(
                    bytes,
                    i as nat,
                ),
                packet::items_read_from(peers@, bytes),
            decreases count - i,
        {
            let ghost offset = packet::items_len::<SerializableSocketAddr>(bytes, i as nat);
            let ghost before = peers@;
            let peer = SerializableSocketAddr::from_plain_stream(stream);
            peers.push(peer);
            i = i + 1;
            proof {
                let taken = SerializableSocketAddr::read_len(bytes.skip(offset as int));
                assert(plain_bytes(*stream) =~= bytes.skip((offset + taken) as int));
                assert forall|j: int| 0 <= j < peers@.len() implies (
                #[trigger] peers@[j]).read_from(
                    packet::from_item::<SerializableSocketAddr>(bytes, j as nat),
                ) by {
                    if j < before.len() {
                        assert(peers@[j] == before[j]);
                    }
                }
            }
        }
        assert(plain_bytes(*stream) =~= start.skip(Self::read_len(start) as int));
        HandshakeResponsePacket { peers }
    }

    /// The bytes of the response, written through a stream of
    /// `plain_binary_stream`.
    pub fn to_plain_bytes(&self) -> (bytes: Vec<u8>)
        ensures
            bytes@ == self.encoded(),
    {
        let mut stream = plain_new();
        self.to_plain_stream(&mut stream);
        let bytes = plain_get_buffer_vec(stream);
        assert(bytes@ =~= self.encoded());
        bytes
    }

    /// The response at the front of `bytes`, read through a stream of
    /// `plain_binary_stream`.
    pub fn from_plain_bytes(bytes: &[u8]) -> (packet: Self)
        requires
            Self::readable(bytes@),
        ensures
            packet.read_from(bytes@),
    {
        let mut stream = plain_from_bytes(bytes);
        Self::from_plain_stream(&mut stream)
    }
}

} // verus!
