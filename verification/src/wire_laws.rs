//! What the operations on streams, addresses and packets do, stated over calls of
//! them and down to the single byte.
//!
//! A law speaks of `call_ensures(operation, arguments, result)`: that the operation
//! may return `result` for `arguments`. What holds under it holds of every call.

use std::collections::VecDeque;

use plain_binary_stream::BinaryStream as PlainBinaryStream;
use vstd::arithmetic::power::pow;
use vstd::prelude::*;

use crate::binary_stream;
use crate::binary_stream::{BinaryStream, BinaryStreamMode, StreamError};
use crate::endian;
use crate::laws;
use crate::net::{IpAddr, Ipv4Addr, Ipv6Addr, SocketAddr, SocketAddrV4, SocketAddrV6};
use crate::packet;
use crate::packet::{
    BantamPacketType, ByePacket, DataPacket, HandshakePacket, HandshakeRequestPacket,
    HandshakeResponsePacket, PacketHeader, PacketType, Serializable,
};
use crate::plain;
use crate::util;
use crate::util::SerializableSocketAddr;

verus! {

/// The digit of `value` with weight 256 to the power of `i`.
pub open spec fn digit(value: nat, i: nat) -> int {
    (value as int / pow(256, i)) % 256
}

/// The `width` lowest digits of `value`, least significant first.
pub open spec fn digits(value: nat, width: nat) -> Seq<u8> {
    Seq::new(width, |i: int| digit(value, i as nat) as u8)
}

/// Byte `i` of a little-endian integer is its digit with weight 256 to the power of
/// `i`.
pub proof fn law_bytes_are_digits(value: nat, width: nat)
    ensures
        endian::le_bytes(value, width) == digits(value, width),
    decreases width,
{
    endian::lemma_le_bytes_len(value, width);
    if width > 0 {
        let inner = (width - 1) as nat;
        law_bytes_are_digits(value / 256, inner);
        assert forall|i: int| 0 <= i < width implies endian::le_bytes(value, width)[i] == digits(
            value,
            width,
        )[i] by {
            if i == 0 {
                vstd::arithmetic::power::lemma_pow0(256);
            } else {
                let k = (i - 1) as nat;
                assert(endian::le_bytes(value, width)[i] == endian::le_bytes(value / 256, inner)[i
                    - 1]);
                vstd::arithmetic::power::lemma_pow_positive(256, k);
                vstd::arithmetic::power::lemma_pow1(256);
                vstd::arithmetic::power::lemma_pow_adds(256, 1, k);
                vstd::arithmetic::div_mod::lemma_div_denominator(value as int, 256, pow(256, k));
                assert(1 + k == i as nat);
            }
        }
    }
    assert(endian::le_bytes(value, width) =~= digits(value, width));
}

/// The digits of the number that bytes stand for are those bytes.
pub proof fn law_digits_are_bytes(bytes: Seq<u8>)
    ensures
        digits(endian::le_value(bytes), bytes.len()) == bytes,
{
    endian::law_bytes_round_trip(bytes);
    law_bytes_are_digits(endian::le_value(bytes), bytes.len());
}

/// Four bytes that are the digits of `len` announce it.
pub proof fn lemma_announced(bytes: Seq<u8>, len: u32)
    requires
        bytes.take(4) == digits(len as nat, 4),
    ensures
        binary_stream::announced_len(bytes) == len,
{
    law_bytes_are_digits(len as nat, 4);
    endian::lemma_le_bounds();
    endian::law_value_round_trip(len as nat, 4);
}

/// `to_le_bytes` gives the digits of a number, and `from_le_bytes` the number with
/// the given digits.
pub proof fn law_integer_conversions(
    value: u128,
    width: usize,
    bytes: Vec<u8>,
    slice: &[u8],
    number: u128,
)
    ensures
        call_ensures(endian::to_le_bytes, (value, width), bytes) ==> bytes@ == digits(
            value as nat,
            width as nat,
        ),
        call_ensures(endian::from_le_bytes, (slice,), number) ==> digits(
            number as nat,
            slice@.len(),
        ) == slice@,
{
    law_bytes_are_digits(value as nat, width as nat);
    law_digits_are_bytes(slice@);
}

/// Whether a stream takes `bytes` in at its back where it is written, and refuses
/// them where it is read.
pub open spec fn takes_in(
    before: BinaryStream,
    after: BinaryStream,
    bytes: Seq<u8>,
    result: Result<(), StreamError>,
) -> bool {
    &&& after.mode == before.mode
    &&& before.mode == BinaryStreamMode::Write ==> result is Ok && after.buffer@ == before.buffer@
        + bytes
    &&& before.mode == BinaryStreamMode::Read ==> result == Err::<(), _>(StreamError::ReadOnly)
        && after.buffer@ == before.buffer@
}

/// Whether a stream gives away `count` bytes from its front where it is read, and
/// refuses where it is written.
pub open spec fn gives_away<T>(
    before: BinaryStream,
    after: BinaryStream,
    count: int,
    result: Result<T, StreamError>,
) -> bool {
    &&& after.mode == before.mode
    &&& before.mode == BinaryStreamMode::Read ==> result is Ok && after.buffer@
        == before.buffer@.skip(count)
    &&& before.mode == BinaryStreamMode::Write ==> result == Err::<T, _>(StreamError::Writing)
        && after.buffer@ == before.buffer@
}

/// A new stream is empty and written; one over bytes is read and holds them; and a
/// stream tells what it holds.
pub proof fn law_streams_hold_bytes(
    stream: BinaryStream,
    size: Option<usize>,
    buffer: VecDeque<u8>,
    slice: &[u8],
    bytes: Vec<u8>,
    count: usize,
)
    ensures
        call_ensures(BinaryStream::new, (), stream) ==> stream.mode == BinaryStreamMode::Write
            && stream.buffer@.len() == 0,
        call_ensures(BinaryStream::with_capacity, (size,), stream) ==> stream.mode
            == BinaryStreamMode::Write && stream.buffer@.len() == 0,
        call_ensures(BinaryStream::from_buffer, (buffer,), stream) ==> stream.mode
            == BinaryStreamMode::Read && stream.buffer@ == buffer@,
        call_ensures(BinaryStream::from_bytes, (slice,), stream) ==> stream.mode
            == BinaryStreamMode::Read && stream.buffer@ == slice@,
        call_ensures(BinaryStream::size, (&stream,), count) ==> count == stream.buffer@.len(),
        call_ensures(BinaryStream::get_buffer, (stream,), buffer) ==> buffer@ == stream.buffer@,
        call_ensures(BinaryStream::get_buffer_vec, (stream,), bytes) ==> bytes@ == stream.buffer@,
{
}

/// Writing bytes appends them.
pub proof fn law_bytes_are_appended(
    stream: &mut BinaryStream,
    byte: u8,
    bytes: &Vec<u8>,
    flag: bool,
    result: Result<(), StreamError>,
)
    ensures
        call_ensures(BinaryStream::write_buffer_single, (stream, byte), result) ==> takes_in(
            *old(stream),
            *final(stream),
            seq![byte],
            result,
        ),
        call_ensures(BinaryStream::write_buffer, (stream, bytes), result) ==> takes_in(
            *old(stream),
            *final(stream),
            bytes@,
            result,
        ),
        call_ensures(BinaryStream::write_bool, (stream, flag), result) ==> takes_in(
            *old(stream),
            *final(stream),
            if flag {
                seq![1u8]
            } else {
                seq![0u8]
            },
            result,
        ),
{
}

/// Writing an integer appends its digits, as many as its type has bytes.
pub proof fn law_integers_are_appended(
    stream: &mut BinaryStream,
    a: u16,
    b: u32,
    c: u64,
    d: u128,
    result: Result<(), StreamError>,
)
    ensures
        call_ensures(BinaryStream::write_u16, (stream, a), result) ==> takes_in(
            *old(stream),
            *final(stream),
            digits(a as nat, 2),
            result,
        ),
        call_ensures(BinaryStream::write_u32, (stream, b), result) ==> takes_in(
            *old(stream),
            *final(stream),
            digits(b as nat, 4),
            result,
        ),
        call_ensures(BinaryStream::write_u64, (stream, c), result) ==> takes_in(
            *old(stream),
            *final(stream),
            digits(c as nat, 8),
            result,
        ),
        call_ensures(BinaryStream::write_u128, (stream, d), result) ==> takes_in(
            *old(stream),
            *final(stream),
            digits(d as nat, 16),
            result,
        ),
{
    law_bytes_are_digits(a as nat, 2);
    law_bytes_are_digits(b as nat, 4);
    law_bytes_are_digits(c as nat, 8);
    law_bytes_are_digits(d as nat, 16);
}

/// Writing a byte vector, a string or a list appends the lowest four digits of its
/// length, in bytes or items, and then its content.
pub proof fn law_sequences_are_appended<T: Serializable>(
    stream: &mut BinaryStream,
    bytes: &Vec<u8>,
    text: &String,
    items: &Vec<T>,
    result: Result<(), StreamError>,
)
    ensures
        call_ensures(BinaryStream::write_byte_vec, (stream, bytes), result) ==> takes_in(
            *old(stream),
            *final(stream),
            digits(bytes@.len(), 4) + bytes@,
            result,
        ),
        call_ensures(BinaryStream::write_string, (stream, text), result) ==> takes_in(
            *old(stream),
            *final(stream),
            digits(vstd::utf8::encode_utf8(text@).len(), 4) + vstd::utf8::encode_utf8(text@),
            result,
        ),
        call_ensures(BinaryStream::write_vec::<T>, (stream, items), result) ==> takes_in(
            *old(stream),
            *final(stream),
            digits(items@.len(), 4) + packet::items_encoded(items@),
            result,
        ),
{
    law_bytes_are_digits(bytes@.len(), 4);
    law_bytes_are_digits(vstd::utf8::encode_utf8(text@).len(), 4);
    law_bytes_are_digits(items@.len(), 4);
}

/// The items of a list are written one after the other, each as it is by itself.
pub proof fn law_items_in_order<T: Serializable>(front: Seq<T>, item: T, back: Seq<T>)
    ensures
        packet::items_encoded(Seq::<T>::empty()) == Seq::<u8>::empty(),
        packet::items_encoded(seq![item]) == item.encoded(),
        packet::items_encoded(front + back) == packet::items_encoded(front)
            + packet::items_encoded(back),
{
    let single = seq![item];
    assert(packet::items_encoded(single.drop_last()) =~= Seq::<u8>::empty());
    assert(single.last() == item);
    assert(packet::items_encoded(single) =~= item.encoded());
    laws::lemma_items_encoded_concat(front, back);
}

/// Items are read one after the other: each from where the one before it ends.
pub proof fn law_items_are_read_in_order<T: Serializable>(bytes: Seq<u8>, i: nat)
    ensures
        packet::from_item::<T>(bytes, 0) == bytes,
        packet::items_len::<T>(bytes, 0) == 0,
        packet::items_len::<T>(bytes, i + 1) == packet::items_len::<T>(bytes, i) + T::read_len(
            packet::from_item::<T>(bytes, i),
        ),
        packet::items_len::<T>(bytes, i) <= bytes.len() ==> packet::from_item::<T>(bytes, i + 1)
            == bytes.skip(packet::items_len::<T>(bytes, i + 1) as int),
        packet::items_readable::<T>(bytes, 0),
        packet::items_readable::<T>(bytes, i + 1) <==> packet::items_readable::<T>(bytes, i)
            && T::readable(packet::from_item::<T>(bytes, i)),
{
    assert(bytes.skip(0) =~= bytes);
}

/// Reading bytes gives them away from the front, in order.
pub proof fn law_bytes_are_taken(
    stream: &mut BinaryStream,
    count: usize,
    single: Result<u8, StreamError>,
    flag: Result<bool, StreamError>,
    many: Result<Vec<u8>, StreamError>,
)
    ensures
        call_ensures(BinaryStream::read_buffer_single, (stream,), single) ==> {
            &&& gives_away(*old(stream), *final(stream), 1, single)
            &&& single matches Ok(byte) ==> byte == old(stream).buffer@[0]
        },
        call_ensures(BinaryStream::read_bool, (stream,), flag) ==> {
            &&& gives_away(*old(stream), *final(stream), 1, flag)
            &&& flag matches Ok(set) ==> (set <==> old(stream).buffer@[0] == 1)
        },
        call_ensures(BinaryStream::read_buffer, (stream, count), many) ==> {
            &&& gives_away(*old(stream), *final(stream), count as int, many)
            &&& many matches Ok(bytes) ==> bytes@ == old(stream).buffer@.take(count as int)
        },
{
}

/// Reading an integer gives the one whose digits are the bytes that it takes.
pub proof fn law_integers_are_taken(
    stream: &mut BinaryStream,
    a: Result<u16, StreamError>,
    b: Result<u32, StreamError>,
    c: Result<u64, StreamError>,
    d: Result<u128, StreamError>,
)
    ensures
        call_ensures(BinaryStream::read_u16, (stream,), a) ==> {
            &&& gives_away(*old(stream), *final(stream), 2, a)
            &&& a matches Ok(val) ==> (old(stream).buffer@.len() >= 2 ==> digits(val as nat, 2)
                == old(stream).buffer@.take(2))
        },
        call_ensures(BinaryStream::read_u32, (stream,), b) ==> {
            &&& gives_away(*old(stream), *final(stream), 4, b)
            &&& b matches Ok(val) ==> (old(stream).buffer@.len() >= 4 ==> digits(val as nat, 4)
                == old(stream).buffer@.take(4))
        },
        call_ensures(BinaryStream::read_u64, (stream,), c) ==> {
            &&& gives_away(*old(stream), *final(stream), 8, c)
            &&& c matches Ok(val) ==> (old(stream).buffer@.len() >= 8 ==> digits(val as nat, 8)
                == old(stream).buffer@.take(8))
        },
        call_ensures(BinaryStream::read_u128, (stream,), d) ==> {
            &&& gives_away(*old(stream), *final(stream), 16, d)
            &&& d matches Ok(val) ==> (old(stream).buffer@.len() >= 16 ==> digits(val as nat, 16)
                == old(stream).buffer@.take(16))
        },
{
    let bytes = old(stream).buffer@;
    law_digits_are_bytes(bytes.take(2));
    law_digits_are_bytes(bytes.take(4));
    law_digits_are_bytes(bytes.take(8));
    law_digits_are_bytes(bytes.take(16));
}

/// Reading a byte vector or a string takes the length whose digits come first, and
/// as many bytes behind it as it says.
pub proof fn law_sequences_are_taken(
    stream: &mut BinaryStream,
    len: u32,
    bytes: Result<Vec<u8>, StreamError>,
    text: Result<String, StreamError>,
)
    requires
        old(stream).buffer@.len() >= 4 + len,
        old(stream).buffer@.take(4) == digits(len as nat, 4),
    ensures
        call_ensures(BinaryStream::read_byte_vec, (stream,), bytes) ==> {
            &&& gives_away(*old(stream), *final(stream), 4 + len, bytes)
            &&& bytes matches Ok(val) ==> val@ == old(stream).buffer@.subrange(4, 4 + len)
        },
        call_ensures(BinaryStream::read_string, (stream,), text) ==> {
            &&& gives_away(*old(stream), *final(stream), 4 + len, text)
            &&& text matches Ok(val) ==> val@ == vstd::utf8::decode_utf8(
                old(stream).buffer@.subrange(4, 4 + len),
            )
        },
{
    let held = old(stream).buffer@;
    lemma_announced(held, len);
    assert(held.skip(4).take(len as int) =~= held.subrange(4, 4 + len));
}

/// Reading a list takes the number of items whose digits come first, and as many
/// items behind it.
pub proof fn law_lists_are_taken<T: Serializable>(
    stream: &mut BinaryStream,
    count: u32,
    items: Result<Vec<T>, StreamError>,
    i: int,
)
    requires
        old(stream).buffer@.len() >= 4,
        old(stream).buffer@.take(4) == digits(count as nat, 4),
    ensures
        call_ensures(BinaryStream::read_vec::<T>, (stream,), items) ==> {
            let rest = old(stream).buffer@.skip(4);
            &&& gives_away(
                *old(stream),
                *final(stream),
                4 + packet::items_len::<T>(rest, count as nat) as int,
                items,
            )
            &&& items matches Ok(val) ==> {
                &&& val@.len() == count
                &&& 0 <= i < count ==> val@[i].read_from(packet::from_item::<T>(rest, i as nat))
            }
        },
{
    lemma_announced(old(stream).buffer@, count);
}

/// The kind of a packet is one byte on a stream, and is read from one.
pub proof fn law_kinds_on_streams(
    stream: &mut BinaryStream,
    kind: BantamPacketType,
    written: Result<(), StreamError>,
    read: Result<BantamPacketType, StreamError>,
)
    ensures
        call_ensures(
            BinaryStream::write_packet_type::<BantamPacketType>,
            (stream, kind),
            written,
        ) ==> takes_in(*old(stream), *final(stream), seq![number_of(kind)], written),
        call_ensures(BinaryStream::read_packet_type::<BantamPacketType>, (stream,), read) ==> {
            &&& gives_away(*old(stream), *final(stream), 1, read)
            &&& read matches Ok(val) ==> number_of(val) == old(stream).buffer@[0]
        },
{
}

/// The number of a kind of packet.
pub open spec fn number_of(kind: BantamPacketType) -> u8 {
    match kind {
        BantamPacketType::Handshake => 0,
        BantamPacketType::HandshakeResponse => 1,
        BantamPacketType::Data => 2,
        BantamPacketType::Bye => 3,
    }
}

/// Kinds and bytes stand for each other: handshakes for 0, responses for 1, data for
/// 2, goodbyes for 3, and no other byte for any.
pub proof fn law_kinds_have_numbers(
    kind: BantamPacketType,
    byte: u8,
    found: Option<BantamPacketType>,
)
    ensures
        kind.byte_of() == number_of(kind),
        BantamPacketType::type_of(byte) == Some(kind) <==> byte == number_of(kind),
        call_ensures(<BantamPacketType as PacketType>::to_byte, (&kind,), byte) ==> byte
            == number_of(kind),
        call_ensures(<BantamPacketType as PacketType>::from_byte, (byte,), found) ==> {
            &&& byte <= 3 ==> (found matches Some(k) && number_of(k) == byte)
            &&& byte > 3 ==> found is None
        },
{
}

/// Each packet has its kind.
pub proof fn law_packets_have_kinds(
    handshake: HandshakePacket,
    request: HandshakeRequestPacket,
    response: HandshakeResponsePacket,
    data: DataPacket,
    bye: ByePacket,
    kind: BantamPacketType,
)
    ensures
        handshake.kind() == BantamPacketType::Handshake,
        request.kind() == BantamPacketType::Handshake,
        response.kind() == BantamPacketType::HandshakeResponse,
        data.kind() == BantamPacketType::Data,
        bye.kind() == BantamPacketType::Bye,
        call_ensures(
            <HandshakePacket as PacketHeader<BantamPacketType>>::get_type,
            (&handshake,),
            kind,
        ) ==> kind == BantamPacketType::Handshake,
        call_ensures(
            <HandshakeRequestPacket as PacketHeader<BantamPacketType>>::get_type,
            (&request,),
            kind,
        ) ==> kind == BantamPacketType::Handshake,
        call_ensures(
            <HandshakeResponsePacket as PacketHeader<BantamPacketType>>::get_type,
            (&response,),
            kind,
        ) ==> kind == BantamPacketType::HandshakeResponse,
        call_ensures(
            <DataPacket as PacketHeader<BantamPacketType>>::get_type,
            (&data,),
            kind,
        ) ==> kind == BantamPacketType::Data,
        call_ensures(<ByePacket as PacketHeader<BantamPacketType>>::get_type, (&bye,), kind)
            ==> kind == BantamPacketType::Bye,
{
}

/// A new packet holds what it was made with.
pub proof fn law_packets_hold_what_they_are_made_with(
    port: u16,
    asks: bool,
    peers: Vec<SerializableSocketAddr>,
    bytes: Vec<u8>,
    code: u8,
    handshake: HandshakePacket,
    request: HandshakeRequestPacket,
    response: HandshakeResponsePacket,
    data: DataPacket,
    bye: ByePacket,
)
    ensures
        call_ensures(HandshakePacket::new, (port,), handshake) ==> handshake.listening_port == port,
        call_ensures(HandshakeRequestPacket::new, (port, asks), request)
            ==> request.handshake.listening_port == port && request.request_peers == asks,
        call_ensures(HandshakeResponsePacket::new, (peers,), response) ==> response.peers@
            == peers@,
        call_ensures(DataPacket::new, (bytes,), data) ==> data.bytes@ == bytes@,
        call_ensures(ByePacket::new, (code,), bye) ==> bye.code == code,
{
}

/// The octets of an IP address in network order: those of IPv4 as they are, and
/// each segment of IPv6 as its high octet and its low octet.
pub open spec fn network_order(ip: IpAddr) -> Seq<u8> {
    match ip {
        IpAddr::V4(Ipv4Addr(a, b, c, d)) => seq![a, b, c, d],
        IpAddr::V6(Ipv6Addr(a, b, c, d, e, f, g, h)) => {
            let segments = seq![a, b, c, d, e, f, g, h];
            Seq::new(
                16,
                |i: int|
                    if i % 2 == 0 {
                        (segments[i / 2] / 256) as u8
                    } else {
                        (segments[i / 2] % 256) as u8
                    },
            )
        },
    }
}

/// Octets are in network order, and two of them make a segment with the first as
/// its high half.
pub proof fn law_network_order(
    ip: IpAddr,
    v4: Ipv4Addr,
    v6: Ipv6Addr,
    octets: Vec<u8>,
    bytes: Vec<u8>,
    segments: Vec<u16>,
    i: int,
)
    ensures
        ip.octets_spec() == network_order(ip),
        call_ensures(Ipv4Addr::octets, (&v4,), octets) ==> octets@ == network_order(IpAddr::V4(v4)),
        call_ensures(Ipv6Addr::octets, (&v6,), octets) ==> octets@ == network_order(IpAddr::V6(v6)),
        call_ensures(util::byte_vec_to_short_vec, (bytes,), segments) ==> {
            &&& segments@.len() == bytes@.len() / 2
            &&& 0 <= i < segments@.len() ==> segments@[i] == 256 * bytes@[2 * i] + bytes@[2 * i + 1]
        },
{
    assert(v4.octets_spec() =~= network_order(IpAddr::V4(v4)));
    assert(v6.octets_spec() =~= network_order(IpAddr::V6(v6)));
    assert(ip.octets_spec() =~= network_order(ip));
}

/// An IP address is made of its octets or segments in the given order.
pub proof fn law_ips_are_made_of_their_parts(
    a: u8,
    b: u8,
    c: u8,
    d: u8,
    s: (u16, u16, u16, u16, u16, u16, u16, u16),
    v4: Ipv4Addr,
    v6: Ipv6Addr,
)
    ensures
        call_ensures(Ipv4Addr::new, (a, b, c, d), v4) ==> v4.0 == a && v4.1 == b && v4.2 == c
            && v4.3 == d,
        call_ensures(Ipv6Addr::new, (s.0, s.1, s.2, s.3, s.4, s.5, s.6, s.7), v6) ==> {
            &&& v6.0 == s.0 && v6.1 == s.1 && v6.2 == s.2 && v6.3 == s.3
            &&& v6.4 == s.4 && v6.5 == s.5 && v6.6 == s.6 && v6.7 == s.7
        },
{
}

/// A socket address has an IP address and a port, and setting the port keeps all
/// else.
pub proof fn law_socket_addresses_have_parts(
    addr: SocketAddr,
    new_port: u16,
    ip: IpAddr,
    port: u16,
    changed: &mut SocketAddr,
)
    ensures
        match addr {
            SocketAddr::V4(v4) => {
                &&& addr.ip_spec() == IpAddr::V4(v4.ip)
                &&& addr.port_spec() == v4.port
                &&& addr.with_port(new_port) == SocketAddr::V4(
                    SocketAddrV4 { ip: v4.ip, port: new_port },
                )
            },
            SocketAddr::V6(v6) => {
                &&& addr.ip_spec() == IpAddr::V6(v6.ip)
                &&& addr.port_spec() == v6.port
                &&& addr.with_port(new_port) == SocketAddr::V6(
                    SocketAddrV6 {
                        ip: v6.ip,
                        port: new_port,
                        flowinfo: v6.flowinfo,
                        scope_id: v6.scope_id,
                    },
                )
            },
        },
        call_ensures(SocketAddr::ip, (&addr,), ip) ==> match addr {
            SocketAddr::V4(v4) => ip == IpAddr::V4(v4.ip),
            SocketAddr::V6(v6) => ip == IpAddr::V6(v6.ip),
        },
        call_ensures(SocketAddr::port, (&addr,), port) ==> match addr {
            SocketAddr::V4(v4) => port == v4.port,
            SocketAddr::V6(v6) => port == v6.port,
        },
        call_ensures(SocketAddr::set_port, (changed, new_port), ()) ==> match *old(changed) {
            SocketAddr::V4(v4) => *final(changed) == SocketAddr::V4(
                SocketAddrV4 { ip: v4.ip, port: new_port },
            ),
            SocketAddr::V6(v6) => *final(changed) == SocketAddr::V6(
                SocketAddrV6 {
                    ip: v6.ip,
                    port: new_port,
                    flowinfo: v6.flowinfo,
                    scope_id: v6.scope_id,
                },
            ),
        },
{
}

/// Whether `listed` is the exchange form of `addr`: the same IP address and port.
pub open spec fn stands_for(listed: SerializableSocketAddr, addr: SocketAddr) -> bool {
    match addr {
        SocketAddr::V4(v4) => listed.ip == IpAddr::V4(v4.ip) && listed.port == v4.port,
        SocketAddr::V6(v6) => listed.ip == IpAddr::V6(v6.ip) && listed.port == v6.port,
    }
}

/// The exchange form has the IP address and the port of a socket address, and gives
/// back a socket address with them, without flow label and scope.
pub proof fn law_exchange_form(
    ip: IpAddr,
    port: u16,
    addr: SocketAddr,
    listed: SerializableSocketAddr,
    made: SerializableSocketAddr,
    back: SocketAddr,
)
    ensures
        stands_for(listed, addr) <==> listed == SerializableSocketAddr::of_sock_addr(addr),
        stands_for(listed, listed.sock_addr()),
        listed.sock_addr() matches SocketAddr::V6(v6) ==> v6.flowinfo == 0 && v6.scope_id == 0,
        call_ensures(SerializableSocketAddr::new, (ip, port), made) ==> made.ip == ip && made.port
            == port,
        call_ensures(SerializableSocketAddr::from_sock_addr, (addr,), made) ==> stands_for(
            made,
            addr,
        ),
        call_ensures(SerializableSocketAddr::to_sock_addr, (&listed,), back) ==> {
            &&& stands_for(listed, back)
            &&& back matches SocketAddr::V6(v6) ==> v6.flowinfo == 0 && v6.scope_id == 0
        },
        call_ensures(<SerializableSocketAddr as Default>::default, (), made) ==> made.port == 0
            && made.ip == IpAddr::V4(Ipv4Addr(0, 0, 0, 0)),
{
}

/// How each value stands on a stream, byte by byte.
pub proof fn law_layout(
    handshake: HandshakePacket,
    request: HandshakeRequestPacket,
    response: HandshakeResponsePacket,
    data: DataPacket,
    bye: ByePacket,
    addr: SerializableSocketAddr,
)
    ensures
        handshake.encoded() == digits(handshake.listening_port as nat, 2),
        request.encoded() == digits(request.handshake.listening_port as nat, 2) + seq![
            if request.request_peers {
                1u8
            } else {
                0u8
            },
        ],
        response.encoded() == digits(response.peers@.len(), 4) + packet::items_encoded(
            response.peers@,
        ),
        data.encoded() == digits(data.bytes@.len(), 4) + data.bytes@,
        bye.encoded() == seq![bye.code],
        addr.encoded() == digits(addr.port as nat, 2) + digits(network_order(addr.ip).len(), 4)
            + network_order(addr.ip),
{
    law_bytes_are_digits(handshake.listening_port as nat, 2);
    law_bytes_are_digits(request.handshake.listening_port as nat, 2);
    law_bytes_are_digits(response.peers@.len(), 4);
    law_bytes_are_digits(data.bytes@.len(), 4);
    law_bytes_are_digits(addr.port as nat, 2);
    law_bytes_are_digits(network_order(addr.ip).len(), 4);
    assert(addr.ip.octets_spec() =~= network_order(addr.ip));
    assert(request.encoded() =~= digits(request.handshake.listening_port as nat, 2) + seq![
        if request.request_peers {
            1u8
        } else {
            0u8
        },
    ]);
    assert(addr.encoded() =~= digits(addr.port as nat, 2) + digits(
        network_order(addr.ip).len(),
        4,
    ) + network_order(addr.ip));
}

/// A value can be read exactly where enough bytes stand for it, and takes as many as
/// it has. A length or a number of octets is what the digits before them say.
pub proof fn law_what_can_be_read(bytes: Seq<u8>, len: u32)
    ensures
        HandshakePacket::readable(bytes) <==> bytes.len() >= 2,
        HandshakePacket::read_len(bytes) == 2,
        HandshakeRequestPacket::readable(bytes) <==> bytes.len() >= 3,
        HandshakeRequestPacket::read_len(bytes) == 3,
        ByePacket::readable(bytes) <==> bytes.len() >= 1,
        ByePacket::read_len(bytes) == 1,
        bytes.len() < 4 ==> !DataPacket::readable(bytes) && !HandshakeResponsePacket::readable(
            bytes,
        ),
        bytes.len() < 6 ==> !SerializableSocketAddr::readable(bytes),
        bytes.len() >= 4 && bytes.take(4) == digits(len as nat, 4) ==> {
            &&& DataPacket::readable(bytes) <==> bytes.len() >= 4 + len
            &&& DataPacket::read_len(bytes) == 4 + len
            &&& HandshakeResponsePacket::readable(bytes) <==> packet::items_readable::<
                SerializableSocketAddr,
            >(bytes.skip(4), len as nat)
            &&& HandshakeResponsePacket::read_len(bytes) == 4 + packet::items_len::<
                SerializableSocketAddr,
            >(bytes.skip(4), len as nat)
        },
        bytes.len() >= 6 && bytes.subrange(2, 6) == digits(len as nat, 4) ==> {
            &&& SerializableSocketAddr::readable(bytes) <==> (len == 4 || len == 16) && bytes.len()
                >= 6 + len
            &&& SerializableSocketAddr::read_len(bytes) == 6 + len
        },
{
    if bytes.len() >= 4 && bytes.take(4) == digits(len as nat, 4) {
        lemma_announced(bytes, len);
    }
    if bytes.len() >= 6 && bytes.subrange(2, 6) == digits(len as nat, 4) {
        assert(bytes.skip(2).take(4) =~= bytes.subrange(2, 6));
        lemma_announced(bytes.skip(2), len);
    }
}

/// What is read is what stands there.
pub proof fn law_what_is_read(
    bytes: Seq<u8>,
    len: u32,
    handshake: HandshakePacket,
    request: HandshakeRequestPacket,
    response: HandshakeResponsePacket,
    data: DataPacket,
    bye: ByePacket,
    addr: SerializableSocketAddr,
)
    ensures
        handshake.read_from(bytes) && bytes.len() >= 2 ==> digits(
            handshake.listening_port as nat,
            2,
        ) == bytes.take(2),
        request.read_from(bytes) && bytes.len() >= 3 ==> {
            &&& digits(request.handshake.listening_port as nat, 2) == bytes.take(2)
            &&& request.request_peers <==> bytes[2] == 1
        },
        bye.read_from(bytes) ==> bye.code == bytes[0],
        data.read_from(bytes) && bytes.len() >= 4 + len && bytes.take(4) == digits(len as nat, 4)
            ==> data.bytes@ == bytes.subrange(4, 4 + len),
        response.read_from(bytes) && bytes.len() >= 4 && bytes.take(4) == digits(len as nat, 4)
            ==> response.peers@.len() == len,
        addr.read_from(bytes) && bytes.len() >= 6 + len && bytes.subrange(2, 6) == digits(
            len as nat,
            4,
        ) && (len == 4 || len == 16) ==> {
            &&& digits(addr.port as nat, 2) == bytes.take(2)
            &&& network_order(addr.ip) == bytes.subrange(6, 6 + len)
        },
{
    if bytes.len() >= 2 {
        law_digits_are_bytes(bytes.take(2));
    }
    if bytes.len() >= 4 && bytes.take(4) == digits(len as nat, 4) {
        lemma_announced(bytes, len);
        if bytes.len() >= 4 + len {
            assert(bytes.skip(4).take(len as int) =~= bytes.subrange(4, 4 + len));
        }
    }
    if addr.read_from(bytes) && bytes.len() >= 6 + len && bytes.subrange(2, 6) == digits(
        len as nat,
        4,
    ) && (len == 4 || len == 16) {
        assert(bytes.skip(2).take(4) =~= bytes.subrange(2, 6));
        lemma_announced(bytes.skip(2), len);
        let octets = bytes.subrange(6, 6 + len);
        assert(bytes.skip(2).skip(4).take(len as int) =~= octets);
        assert(addr.ip == util::ip_of_octets(octets));
        if len == 16 {
            let s = util::short_vec(octets);
            assert(s.len() == 8);
            assert forall|i: int| 0 <= i < 16 implies network_order(addr.ip)[i] == octets[i] by {
                let k = i / 2;
                assert(s[k] == 256 * octets[2 * k] + octets[2 * k + 1]);
                assert(i == 2 * k || i == 2 * k + 1);
            }
        }
        assert(network_order(addr.ip) =~= octets);
    }
}

/// Writing a value to a stream appends how it stands there, and reading one takes
/// it from the front.
pub proof fn law_values_on_streams<T: Serializable>(
    stream: &mut BinaryStream,
    written: &T,
    read: T,
)
    ensures
        call_ensures(T::to_stream, (written, stream), ()) ==> {
            &&& final(stream).mode == BinaryStreamMode::Write
            &&& final(stream).buffer@ == old(stream).buffer@ + written.encoded()
        },
        call_ensures(T::from_stream, (stream,), read) ==> {
            &&& final(stream).mode == BinaryStreamMode::Read
            &&& final(stream).buffer@ == old(stream).buffer@.skip(
                T::read_len(old(stream).buffer@) as int,
            )
            &&& read.read_from(old(stream).buffer@)
        },
{
}

/// The checks for what can be read answer truthfully.
pub proof fn law_checks_are_truthful(bytes: &Vec<u8>, start: usize, answer: bool, len: usize)
    ensures
        call_ensures(SerializableSocketAddr::can_read, (bytes, start), answer) ==> (answer
            <==> SerializableSocketAddr::readable(bytes@.skip(start as int))),
        call_ensures(HandshakeResponsePacket::can_read, (bytes, start), answer) ==> (answer
            <==> HandshakeResponsePacket::readable(bytes@.skip(start as int))),
        call_ensures(binary_stream::announced_at, (bytes, start), len) && start + 4 <= bytes@.len()
            ==> digits(len as nat, 4) == bytes@.subrange(start as int, start + 4),
{
    if start + 4 <= bytes@.len() {
        let four = bytes@.subrange(start as int, start + 4);
        assert(bytes@.skip(start as int).take(4) =~= four);
        law_digits_are_bytes(four);
    }
}

/// Addresses and responses go over the streams of `plain_binary_stream` with the
/// same bytes as over the library's own.
pub proof fn law_plain_streams_carry_the_same(
    addr: SerializableSocketAddr,
    response: HandshakeResponsePacket,
    stream: &mut PlainBinaryStream,
    slice: &[u8],
    bytes: Vec<u8>,
)
    ensures
        call_ensures(SerializableSocketAddr::to_plain_stream, (&addr, stream), ())
            ==> plain::plain_bytes(*final(stream)) == plain::plain_bytes(*old(stream))
            + addr.encoded(),
        call_ensures(SerializableSocketAddr::from_plain_stream, (stream,), addr) ==> {
            &&& addr.read_from(plain::plain_bytes(*old(stream)))
            &&& plain::plain_bytes(*final(stream)) == plain::plain_bytes(*old(stream)).skip(
                SerializableSocketAddr::read_len(plain::plain_bytes(*old(stream))) as int,
            )
        },
        call_ensures(HandshakeResponsePacket::to_plain_stream, (&response, stream), ())
            ==> plain::plain_bytes(*final(stream)) == plain::plain_bytes(*old(stream))
            + response.encoded(),
        call_ensures(HandshakeResponsePacket::from_plain_stream, (stream,), response) ==> {
            &&& response.read_from(plain::plain_bytes(*old(stream)))
            &&& plain::plain_bytes(*final(stream)) == plain::plain_bytes(*old(stream)).skip(
                HandshakeResponsePacket::read_len(plain::plain_bytes(*old(stream))) as int,
            )
        },
        call_ensures(SerializableSocketAddr::to_plain_bytes, (&addr,), bytes) ==> bytes@
            == addr.encoded(),
        call_ensures(SerializableSocketAddr::from_plain_bytes, (slice,), addr) ==> addr.read_from(
            slice@,
        ),
        call_ensures(HandshakeResponsePacket::to_plain_bytes, (&response,), bytes) ==> bytes@
            == response.encoded(),
        call_ensures(HandshakeResponsePacket::from_plain_bytes, (slice,), response)
            ==> response.read_from(slice@),
{
}

/// Anything can be written to a stream, and an integer or so many bytes can be read
/// wherever a stream holds enough.
pub proof fn law_streams_can_be_used(
    stream: &mut BinaryStream,
    byte: u8,
    bytes: &Vec<u8>,
    number: u128,
    count: usize,
)
    ensures
        call_requires(BinaryStream::write_buffer_single, (stream, byte)),
        call_requires(BinaryStream::write_buffer, (stream, bytes)),
        call_requires(BinaryStream::write_bool, (stream, byte == 1)),
        call_requires(BinaryStream::write_u16, (stream, number as u16)),
        call_requires(BinaryStream::write_u32, (stream, number as u32)),
        call_requires(BinaryStream::write_u64, (stream, number as u64)),
        call_requires(BinaryStream::write_u128, (stream, number)),
        old(stream).mode == BinaryStreamMode::Write ==> call_requires(
            BinaryStream::write_byte_vec,
            (stream, bytes),
        ),
        old(stream).buffer@.len() >= count ==> call_requires(
            BinaryStream::read_buffer,
            (stream, count),
        ),
        old(stream).buffer@.len() >= 1 ==> call_requires(
            BinaryStream::read_buffer_single,
            (stream,),
        ) && call_requires(BinaryStream::read_bool, (stream,)),
        old(stream).buffer@.len() >= 2 ==> call_requires(BinaryStream::read_u16, (stream,)),
        old(stream).buffer@.len() >= 4 ==> call_requires(BinaryStream::read_u32, (stream,)),
        old(stream).buffer@.len() >= 8 ==> call_requires(BinaryStream::read_u64, (stream,)),
        old(stream).buffer@.len() >= 16 ==> call_requires(BinaryStream::read_u128, (stream,)),
{
}

} // verus!
