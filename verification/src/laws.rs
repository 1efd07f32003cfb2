//! What holds of streams and packets taken together: what one side writes, the
//! other side reads.
//!
//! Each law takes the bytes that follow the written ones as `rest`, so that it
//! holds wherever in a stream a value stands.

use vstd::prelude::*;

use crate::binary_stream;
use crate::endian;
use crate::framing;
use crate::framing::SegmentState;
use crate::net;
use crate::net::{IpAddr, SocketAddr};
use crate::packet;
use crate::packet::{
    BantamPacketType, ByePacket, DataPacket, HandshakePacket, HandshakeRequestPacket,
    HandshakeResponsePacket, PacketType, Serializable,
};
use crate::peer;
use crate::peer::Peer;
use crate::session;
use crate::session::{IoAction, IoEvent, JoinAction, JoinEvent};
use crate::util;
use crate::util::SerializableSocketAddr;

verus! {

/// An integer that fits in `width` bytes is read back from them, and reading
/// leaves what follows.
pub proof fn law_integer_round_trip(value: nat, width: nat, rest: Seq<u8>)
    requires
        value < endian::le_bound(width),
    ensures
        ({
            let bytes = endian::le_bytes(value, width) + rest;
            &&& bytes.len() >= width
            &&& endian::le_value(bytes.take(width as int)) == value
            &&& bytes.skip(width as int) == rest
        }),
{
    let written = endian::le_bytes(value, width);
    let bytes = written + rest;
    endian::lemma_le_bytes_len(value, width);
    endian::law_value_round_trip(value, width);
    assert(bytes.take(width as int) =~= written);
    assert(bytes.skip(width as int) =~= rest);
}

/// `read_u16` gives back what `write_u16` wrote.
pub proof fn law_u16_round_trip(val: u16, rest: Seq<u8>)
    ensures
        ({
            let bytes = endian::le_bytes(val as nat, 2) + rest;
            &&& bytes.len() >= 2
            &&& endian::le_value(bytes.take(2)) == val
            &&& bytes.skip(2) == rest
        }),
{
    endian::lemma_le_bounds();
    law_integer_round_trip(val as nat, 2, rest);
}

/// `read_u32` gives back what `write_u32` wrote.
pub proof fn law_u32_round_trip(val: u32, rest: Seq<u8>)
    ensures
        ({
            let bytes = endian::le_bytes(val as nat, 4) + rest;
            &&& bytes.len() >= 4
            &&& endian::le_value(bytes.take(4)) == val
            &&& bytes.skip(4) == rest
        }),
{
    endian::lemma_le_bounds();
    law_integer_round_trip(val as nat, 4, rest);
}

/// `read_u64` gives back what `write_u64` wrote.
pub proof fn law_u64_round_trip(val: u64, rest: Seq<u8>)
    ensures
        ({
            let bytes = endian::le_bytes(val as nat, 8) + rest;
            &&& bytes.len() >= 8
            &&& endian::le_value(bytes.take(8)) == val
            &&& bytes.skip(8) == rest
        }),
{
    endian::lemma_le_bounds();
    law_integer_round_trip(val as nat, 8, rest);
}

/// `read_u128` gives back what `write_u128` wrote.
pub proof fn law_u128_round_trip(val: u128, rest: Seq<u8>)
    ensures
        ({
            let bytes = endian::le_bytes(val as nat, 16) + rest;
            &&& bytes.len() >= 16
            &&& endian::le_value(bytes.take(16)) == val
            &&& bytes.skip(16) == rest
        }),
{
    endian::lemma_le_bounds();
    law_integer_round_trip(val as nat, 16, rest);
}

/// `read_byte_vec` gives back what `write_byte_vec` wrote, if four bytes can
/// hold its length.
pub proof fn law_byte_vec_round_trip(content: Seq<u8>, rest: Seq<u8>)
    requires
        content.len() <= u32::MAX,
    ensures
        ({
            let bytes = binary_stream::counted(content) + rest;
            &&& binary_stream::counted_readable(bytes)
            &&& binary_stream::announced_len(bytes) == content.len()
            &&& binary_stream::counted_content(bytes) == content
            &&& binary_stream::counted(content).len() == 4 + content.len()
            &&& bytes.skip(4 + binary_stream::announced_len(bytes) as int) == rest
        }),
{
    let bytes = binary_stream::counted(content) + rest;
    assert(bytes =~= binary_stream::len_bytes(content.len()) + (content + rest));
    endian::lemma_le_bounds();
    endian::lemma_le_bytes_len(content.len(), 4);
    law_integer_round_trip(content.len(), 4, content + rest);
    assert(binary_stream::counted_content(bytes) =~= content);
    assert(bytes.skip(4 + content.len() as int) =~= rest);
}

/// `read_string` gives back what `write_string` wrote, if four bytes can hold
/// the length of its encoding.
pub proof fn law_string_round_trip(text: Seq<char>, rest: Seq<u8>)
    requires
        vstd::utf8::encode_utf8(text).len() <= u32::MAX,
    ensures
        ({
            let bytes = binary_stream::counted(vstd::utf8::encode_utf8(text)) + rest;
            &&& binary_stream::counted_readable(bytes)
            &&& vstd::utf8::valid_utf8(binary_stream::counted_content(bytes))
            &&& vstd::utf8::decode_utf8(binary_stream::counted_content(bytes)) == text
            &&& bytes.skip(4 + binary_stream::announced_len(bytes) as int) == rest
        }),
{
    let content = vstd::utf8::encode_utf8(text);
    law_byte_vec_round_trip(content, rest);
    vstd::utf8::encode_utf8_valid_utf8(text);
    vstd::utf8::encode_utf8_decode_utf8(text);
}

/// Whether `value` can be read back wherever it was written: reading takes
/// exactly its bytes, and gives only values that are the `same`.
pub open spec fn survives<T: Serializable>(value: T, same: spec_fn(T, T) -> bool) -> bool {
    forall|rest: Seq<u8>| #[trigger] read_back(value, same, rest)
}

/// Whether `value`, written in front of `rest`, is read back.
pub open spec fn read_back<T: Serializable>(
    value: T,
    same: spec_fn(T, T) -> bool,
    rest: Seq<u8>,
) -> bool {
    let bytes = value.encoded() + rest;
    &&& T::readable(bytes)
    &&& T::read_len(bytes) == value.encoded().len()
    &&& forall|read: T| #[trigger] read.read_from(bytes) ==> same(value, read)
}

pub(crate) proof fn lemma_items_encoded_concat<T: Serializable>(front: Seq<T>, back: Seq<T>)
    ensures
        packet::items_encoded(front + back) == packet::items_encoded(front)
            + packet::items_encoded(back),
    decreases back.len(),
{
    if back.len() == 0 {
        assert(front + back =~= front);
        assert(packet::items_encoded(front) + packet::items_encoded(back)
            =~= packet::items_encoded(front));
    } else {
        lemma_items_encoded_concat(front, back.drop_last());
        assert((front + back).drop_last() =~= front + back.drop_last());
        assert(packet::items_encoded(front + back) =~= packet::items_encoded(front)
            + packet::items_encoded(back));
    }
}

/// Where the item with index `i` is read, its bytes are next.
proof fn lemma_from_item<T: Serializable>(
    items: Seq<T>,
    same: spec_fn(T, T) -> bool,
    rest: Seq<u8>,
    i: nat,
)
    requires
        forall|j: int| 0 <= j < items.len() ==> survives(#[trigger] items[j], same),
        i <= items.len(),
    ensures
        ({
            let bytes = packet::items_encoded(items) + rest;
            &&& packet::items_len::<T>(bytes, i) == packet::items_encoded(
                items.take(i as int),
            ).len()
            &&& packet::from_item::<T>(bytes, i) == packet::items_encoded(items.skip(i as int))
                + rest
            &&& i < items.len() ==> packet::from_item::<T>(bytes, i) == items[i as int].encoded()
                + (packet::items_encoded(items.skip(i + 1int)) + rest)
        }),
    decreases i,
{
    let bytes = packet::items_encoded(items) + rest;
    let front = items.take(i as int);
    let back = items.skip(i as int);
    assert(items =~= front + back);
    lemma_items_encoded_concat(front, back);
    if i > 0 {
        let k = (i - 1) as nat;
        lemma_from_item(items, same, rest, k);
        let tail = packet::items_encoded(back) + rest;
        assert(survives(items[k as int], same));
        assert(read_back(items[k as int], same, tail));
        assert(front.drop_last() =~= items.take(k as int));
    }
    assert(bytes.skip(packet::items_encoded(front).len() as int) =~= packet::items_encoded(back)
        + rest);
    if i < items.len() {
        let first = seq![items[i as int]];
        assert(back =~= first + items.skip(i + 1int));
        lemma_items_encoded_concat(first, items.skip(i + 1int));
        assert(packet::items_encoded(first) =~= items[i as int].encoded()) by {
            assert(packet::items_encoded(first.drop_last()) =~= Seq::<u8>::empty());
            assert(first.last() == items[i as int]);
        }
        assert(packet::items_encoded(back) + rest =~= items[i as int].encoded() + (
        packet::items_encoded(items.skip(i + 1int)) + rest));
    }
}

/// `read_vec` gives back what `write_vec` wrote, item by item, if each item can
/// be read back and four bytes can hold their number.
pub proof fn law_vec_round_trip<T: Serializable>(
    items: Seq<T>,
    same: spec_fn(T, T) -> bool,
    rest: Seq<u8>,
)
    requires
        items.len() <= u32::MAX,
        forall|j: int| 0 <= j < items.len() ==> survives(#[trigger] items[j], same),
    ensures
        ({
            let written = binary_stream::len_bytes(items.len()) + packet::items_encoded(items);
            let bytes = written + rest;
            &&& bytes.len() >= 4
            &&& binary_stream::announced_len(bytes) == items.len()
            &&& packet::items_readable::<T>(bytes.skip(4), items.len())
            &&& 4 + packet::items_len::<T>(bytes.skip(4), items.len()) == written.len()
            &&& forall|read: Seq<T>|
                read.len() == items.len() && #[trigger] packet::items_read_from(
                    read,
                    bytes.skip(4),
                ) ==> forall|j: int|
                    0 <= j < items.len() ==> same(#[trigger] items[j], read[j])
        }),
{
    let written = binary_stream::len_bytes(items.len()) + packet::items_encoded(items);
    let bytes = written + rest;
    let tail = packet::items_encoded(items) + rest;
    assert(bytes =~= binary_stream::len_bytes(items.len()) + tail);
    endian::lemma_le_bounds();
    endian::lemma_le_bytes_len(items.len(), 4);
    law_integer_round_trip(items.len(), 4, tail);
    assert forall|i: nat| i < items.len() implies T::readable(
        #[trigger] packet::from_item::<T>(tail, i),
    ) by {
        lemma_from_item(items, same, rest, i);
        assert(read_back(
            items[i as int],
            same,
            packet::items_encoded(items.skip(i + 1int)) + rest,
        ));
    }
    lemma_from_item(items, same, rest, items.len());
    assert(items.take(items.len() as int) =~= items);
    assert forall|read: Seq<T>|
        read.len() == items.len() && #[trigger] packet::items_read_from(
            read,
            tail,
        ) implies forall|j: int| 0 <= j < items.len() ==> same(#[trigger] items[j], read[j]) by {
        assert forall|j: int| 0 <= j < items.len() implies same(#[trigger] items[j], read[j]) by {
            lemma_from_item(items, same, rest, j as nat);
            assert(read_back(items[j], same, packet::items_encoded(items.skip(j + 1)) + rest));
            assert(read[j].read_from(packet::from_item::<T>(tail, j as nat)));
        }
    }
}

/// The octets of an IP address give back the address.
pub proof fn law_octets_round_trip(ip: IpAddr)
    ensures
        util::ip_of_octets(ip.octets_spec()) == ip,
        ip.octets_spec().len() == 4 || ip.octets_spec().len() == 16,
{
    match ip {
        IpAddr::V4(v4) => {},
        IpAddr::V6(v6) => {
            let octets = v6.octets_spec();
            let s = util::short_vec(octets);
            assert(octets.len() == 16);
            assert(s[0] == net::octets_segment(octets[0], octets[1]));
            assert(s[1] == net::octets_segment(octets[2], octets[3]));
            assert(s[2] == net::octets_segment(octets[4], octets[5]));
            assert(s[3] == net::octets_segment(octets[6], octets[7]));
            assert(s[4] == net::octets_segment(octets[8], octets[9]));
            assert(s[5] == net::octets_segment(octets[10], octets[11]));
            assert(s[6] == net::octets_segment(octets[12], octets[13]));
            assert(s[7] == net::octets_segment(octets[14], octets[15]));
        },
    }
}

/// A written socket address is read back as the same address.
pub proof fn law_socket_addr_round_trip(addr: SerializableSocketAddr, rest: Seq<u8>)
    ensures
        read_back(addr, |a: SerializableSocketAddr, b: SerializableSocketAddr| a == b, rest),
{
    let octets = addr.ip.octets_spec();
    let bytes = addr.encoded() + rest;
    law_octets_round_trip(addr.ip);
    law_byte_vec_round_trip(octets, rest);
    assert(bytes =~= endian::le_bytes(addr.port as nat, 2) + (binary_stream::counted(octets)
        + rest));
    law_u16_round_trip(addr.port, binary_stream::counted(octets) + rest);
    endian::lemma_le_bytes_len(addr.port as nat, 2);
}

/// A written handshake is read back.
pub proof fn law_handshake_round_trip(packet: HandshakePacket, rest: Seq<u8>)
    ensures
        read_back(packet, |a: HandshakePacket, b: HandshakePacket| a == b, rest),
{
    law_u16_round_trip(packet.listening_port, rest);
    endian::lemma_le_bytes_len(packet.listening_port as nat, 2);
}

/// A written handshake request is read back.
pub proof fn law_handshake_request_round_trip(packet: HandshakeRequestPacket, rest: Seq<u8>)
    ensures
        read_back(packet, |a: HandshakeRequestPacket, b: HandshakeRequestPacket| a == b, rest),
{
    let flag: u8 = if packet.request_peers {
        1
    } else {
        0
    };
    let bytes = packet.encoded() + rest;
    endian::lemma_le_bytes_len(packet.handshake.listening_port as nat, 2);
    assert(bytes =~= packet.handshake.encoded() + (seq![flag] + rest));
    law_handshake_round_trip(packet.handshake, seq![flag] + rest);
}

/// What is read where a list was written is that list.
pub(crate) proof fn lemma_response_list(
    list: Seq<SerializableSocketAddr>,
    rest: Seq<u8>,
    response: HandshakeResponsePacket,
)
    requires
        list.len() <= u32::MAX,
    ensures
        ({
            let bytes = packet::response_encoded(list) + rest;
            &&& HandshakeResponsePacket::readable(bytes)
            &&& HandshakeResponsePacket::read_len(bytes) == packet::response_encoded(list).len()
            &&& response.read_from(bytes) ==> response.peers@ == list
        }),
{
    let equal = |a: SerializableSocketAddr, b: SerializableSocketAddr| a == b;
    assert forall|j: int| 0 <= j < list.len() implies survives(#[trigger] list[j], equal) by {
        assert forall|tail: Seq<u8>| #[trigger] read_back(list[j], equal, tail) by {
            law_socket_addr_round_trip(list[j], tail);
        }
    }
    law_vec_round_trip(list, equal, rest);
    let bytes = packet::response_encoded(list) + rest;
    if response.read_from(bytes) {
        assert(packet::items_read_from(response.peers@, bytes.skip(4)));
        assert forall|j: int| 0 <= j < list.len() implies list[j] == response.peers@[j] by {
            assert(equal(list[j], response.peers@[j]));
        }
        assert(list =~= response.peers@);
    }
}

/// A written handshake response is read back with the same peers, in the same
/// order, if four bytes can hold their number.
pub proof fn law_handshake_response_round_trip(packet: HandshakeResponsePacket, rest: Seq<u8>)
    requires
        packet.peers@.len() <= u32::MAX,
    ensures
        read_back(
            packet,
            |a: HandshakeResponsePacket, b: HandshakeResponsePacket| a.peers@ == b.peers@,
            rest,
        ),
{
    let bytes = packet.encoded() + rest;
    lemma_response_list(packet.peers@, rest, packet);
    assert forall|read: HandshakeResponsePacket| #[trigger] read.read_from(
        bytes,
    ) implies packet.peers@ == read.peers@ by {
        lemma_response_list(packet.peers@, rest, read);
    }
}

/// A written data packet is read back with the same bytes, if four bytes can
/// hold their number.
pub proof fn law_data_round_trip(packet: DataPacket, rest: Seq<u8>)
    requires
        packet.bytes@.len() <= u32::MAX,
    ensures
        read_back(packet, |a: DataPacket, b: DataPacket| a.bytes@ == b.bytes@, rest),
{
    law_byte_vec_round_trip(packet.bytes@, rest);
}

/// A written goodbye is read back.
pub proof fn law_bye_round_trip(packet: ByePacket, rest: Seq<u8>)
    ensures
        read_back(packet, |a: ByePacket, b: ByePacket| a == b, rest),
{
}

/// Each kind of packet has a byte of its own, and every other byte stands for no
/// kind.
pub proof fn law_packet_type_bytes(kind: BantamPacketType, byte: u8)
    ensures
        BantamPacketType::type_of(kind.byte_of()) == Some(kind),
        BantamPacketType::type_of(byte) == Some(kind) <==> kind.byte_of() == byte,
        BantamPacketType::type_of(byte) is None <==> byte > 3,
{
}

/// A socket address survives the exchange form, but for the flow label and the
/// scope of an IPv6 address.
pub proof fn law_sock_addr_conversion(addr: SerializableSocketAddr, sock_addr: SocketAddr)
    ensures
        SerializableSocketAddr::of_sock_addr(addr.sock_addr()) == addr,
        match sock_addr {
            SocketAddr::V4(_) => SerializableSocketAddr::of_sock_addr(sock_addr).sock_addr()
                == sock_addr,
            SocketAddr::V6(v6) => SerializableSocketAddr::of_sock_addr(sock_addr).sock_addr()
                == SocketAddr::V6(net::SocketAddrV6 { flowinfo: 0, scope_id: 0, ..v6 }),
        },
{
}

/// `read_buffer` gives back what `write_buffer` wrote: bytes leave a stream in the
/// order in which they entered it.
pub proof fn law_buffer_round_trip(written: Seq<u8>, rest: Seq<u8>)
    ensures
        (written + rest).take(written.len() as int) == written,
        (written + rest).skip(written.len() as int) == rest,
{
    assert((written + rest).take(written.len() as int) =~= written);
    assert((written + rest).skip(written.len() as int) =~= rest);
}

/// Every packet is longer than its size field, so a first segment that holds a
/// packet whole is never taken for an empty one.
pub proof fn law_packet_longer_than_size(kind: BantamPacketType, content: Seq<u8>)
    ensures
        framing::packet_bytes(kind, content).len() > 4,
        framing::payload(kind, content).len() <= u32::MAX ==> framing::segment_state(
            framing::packet_bytes(kind, content),
            Seq::empty(),
        ) == SegmentState::Done(framing::payload(kind, content).len() as usize),
{
    let payload = framing::payload(kind, content);
    endian::lemma_le_bytes_len(payload.len(), 4);
    if payload.len() <= u32::MAX {
        let bytes = framing::packet_bytes(kind, content);
        law_packet_arrives(kind, content, bytes, Seq::empty(), 0);
        assert(Seq::<u8>::empty().take(0) =~= Seq::<u8>::empty());
    }
}

/// Reading the segments of a packet one by one comes to the same as if they had
/// come in one piece.
pub proof fn law_segments_accumulate(first: Seq<u8>, later: Seq<u8>, segment: Seq<u8>)
    ensures
        framing::segment_state(first, later) matches SegmentState::Reading(progress)
            ==> framing::progress_state(
            progress.total_packet_size as nat,
            progress.total_packet_bytes_received as nat + segment.len(),
        ) == framing::segment_state(first, later + segment),
{
    if first.len() > 4 {
        endian::lemma_le_value_bound(first.take(4));
        endian::lemma_le_bounds();
    }
}

/// However a packet is split into segments, of which the first holds more than
/// the size, the receiver reads until the last byte has come and no longer, and
/// is then left with the payload.
pub proof fn law_packet_arrives(
    kind: BantamPacketType,
    content: Seq<u8>,
    first: Seq<u8>,
    later: Seq<u8>,
    arrived: int,
)
    requires
        framing::payload(kind, content).len() <= u32::MAX,
        first + later == framing::packet_bytes(kind, content),
        first.len() > 4,
        0 <= arrived <= later.len(),
    ensures
        ({
            let state = framing::segment_state(first, later.take(arrived));
            if arrived < later.len() {
                state is Reading
            } else {
                state == SegmentState::Done(framing::payload(kind, content).len() as usize)
            }
        }),
        (first + later).skip(4) == framing::payload(kind, content),
{
    let payload = framing::payload(kind, content);
    law_byte_vec_round_trip(payload, Seq::empty());
    assert(binary_stream::counted(payload) + Seq::<u8>::empty() =~= first + later);
    assert(first.take(4) =~= (first + later).take(4));
    assert((first + later).skip(4) =~= payload) by {
        assert(binary_stream::counted_content(first + later) =~= (first + later).skip(4));
    }
    assert(first.len() + later.len() == 4 + payload.len());
}

/// What `send_data_packet` sends, the receiver delivers, whatever else came with
/// the last segment.
pub proof fn law_data_delivered(bytes: Seq<u8>, rest: Seq<u8>)
    requires
        bytes.len() <= u32::MAX,
    ensures
        ({
            let received = framing::payload(BantamPacketType::Data, binary_stream::counted(bytes))
                + rest;
            &&& session::acceptable(received)
            &&& BantamPacketType::type_of(received[0]) == Some(BantamPacketType::Data)
            &&& binary_stream::counted_content(received.skip(1)) == bytes
        }),
{
    let content = binary_stream::counted(bytes);
    law_byte_vec_round_trip(bytes, rest);
    assert((framing::payload(BantamPacketType::Data, content) + rest).skip(1) =~= content + rest);
}

/// Data goes from peer to peer unchanged: however its packet is split into
/// segments, the receiver stops reading at its end, takes it for data, and
/// delivers the bytes that were sent.
pub proof fn law_data_end_to_end(bytes: Seq<u8>, first: Seq<u8>, later: Seq<u8>)
    requires
        bytes.len() + 5 <= u32::MAX,
        first + later == framing::packet_bytes(
            BantamPacketType::Data,
            binary_stream::counted(bytes),
        ),
        first.len() > 4,
    ensures
        framing::segment_state(first, later) == SegmentState::Done((bytes.len() + 5) as usize),
        session::acceptable((first + later).skip(4)),
        BantamPacketType::type_of((first + later)[4]) == Some(BantamPacketType::Data),
        binary_stream::counted_content((first + later).skip(5)) == bytes,
{
    let content = binary_stream::counted(bytes);
    let payload = framing::payload(BantamPacketType::Data, content);
    endian::lemma_le_bytes_len(bytes.len(), 4);
    law_packet_arrives(BantamPacketType::Data, content, first, later, later.len() as int);
    assert(later.take(later.len() as int) =~= later);
    law_data_delivered(bytes, Seq::empty());
    assert(payload + Seq::<u8>::empty() =~= payload);
    assert((first + later).skip(5) =~= payload.skip(1));
    assert((first + later)[4] == payload[0]);
}

/// The receiver of an opening handshake learns what its sender put into it.
pub proof fn law_handshake_received(request: HandshakeRequestPacket, rest: Seq<u8>)
    ensures
        ({
            let received = framing::payload(BantamPacketType::Handshake, request.encoded()) + rest;
            &&& session::acceptable(received)
            &&& BantamPacketType::type_of(received[0]) == Some(BantamPacketType::Handshake)
            &&& session::request_of(received.skip(1)) == request
        }),
{
    let content = request.encoded();
    let flag: u8 = if request.request_peers {
        1
    } else {
        0
    };
    endian::lemma_le_bytes_len(request.handshake.listening_port as nat, 2);
    law_u16_round_trip(request.handshake.listening_port, seq![flag] + rest);
    assert(content + rest =~= request.handshake.encoded() + (seq![flag] + rest));
    assert((framing::payload(BantamPacketType::Handshake, content) + rest).skip(1) =~= content
        + rest);
}

/// The receiver of a goodbye takes its sender as gone.
pub proof fn law_bye_received(packet: ByePacket, rest: Seq<u8>)
    ensures
        ({
            let received = framing::payload(BantamPacketType::Bye, packet.encoded()) + rest;
            &&& session::acceptable(received)
            &&& BantamPacketType::type_of(received[0]) == Some(BantamPacketType::Bye)
        }),
{
}

/// An order of some of the peers is no longer than their number.
proof fn lemma_order_len(
    peers: Map<SocketAddr, Peer>,
    own: SocketAddr,
    order: Seq<SocketAddr>,
)
    requires
        peers.dom().finite(),
        peer::orders(order, peer::others(peers, own)),
    ensures
        order.len() <= peers.dom().len(),
{
    order.unique_seq_to_set();
    assert(order.to_set().subset_of(peers.dom())) by {
        assert forall|addr: SocketAddr| order.to_set().contains(addr) implies peers.dom().contains(
            addr,
        ) by {
            assert(order.contains(addr));
        }
    }
    vstd::set_lib::lemma_len_subset(order.to_set(), peers.dom());
}

/// The sender of a handshake reads from the reply whom the receiver knows: the
/// listening addresses of all peers but those that listen where it does itself,
/// if it asked for them, and nobody if it did not.
pub proof fn law_reply_received(
    reply: Seq<u8>,
    request: HandshakeRequestPacket,
    listener_addr: SocketAddr,
    peers: Map<SocketAddr, Peer>,
    response: HandshakeResponsePacket,
)
    requires
        peers.dom().finite(),
        peers.dom().len() <= u32::MAX,
        session::answers(reply, request, listener_addr, peers),
    ensures
        session::acceptable(reply.skip(4)),
        BantamPacketType::type_of(reply[4]) == Some(BantamPacketType::HandshakeResponse),
        response.read_from(reply.skip(5)) ==> if request.request_peers {
            peer::lists_others(peers, listener_addr, response.peers@)
        } else {
            response.peers@.len() == 0
        },
{
    let list = choose|list: Seq<SerializableSocketAddr>| #[trigger]
        session::answers_with(reply, request, listener_addr, peers, list);
    if request.request_peers {
        let order = choose|order: Seq<SocketAddr>| #[trigger]
            peer::lists_in_order(peers, listener_addr, list, order);
        lemma_order_len(peers, listener_addr, order);
    }
    let content = packet::response_encoded(list);
    let received = framing::payload(BantamPacketType::HandshakeResponse, content);
    endian::lemma_le_bytes_len(received.len(), 4);
    assert(reply.skip(4) =~= received);
    assert(reply.skip(5) =~= content);
    assert(received.skip(1) =~= content);
    assert(reply[4] == received[0]);
    lemma_response_list(list, Seq::empty(), response);
    assert(content + Seq::<u8>::empty() =~= content);
}

/// Whether the peer under `addr` listens elsewhere than on `own`, and `listed`
/// is where.
pub open spec fn listens_at(
    peers: Map<SocketAddr, Peer>,
    own: SocketAddr,
    addr: SocketAddr,
    listed: SerializableSocketAddr,
) -> bool {
    &&& peers.contains_key(addr)
    &&& peers[addr].listener_addr != own
    &&& SerializableSocketAddr::of_sock_addr(peers[addr].listener_addr) == listed
}

/// Whoever is listed listens there, and whoever listens elsewhere than the asker
/// is listed.
pub proof fn law_list_is_exact(
    peers: Map<SocketAddr, Peer>,
    own: SocketAddr,
    list: Seq<SerializableSocketAddr>,
    listed: SerializableSocketAddr,
)
    requires
        peer::lists_others(peers, own, list),
    ensures
        list.contains(listed) <==> exists|addr: SocketAddr| #[trigger]
            listens_at(peers, own, addr, listed),
{
    let order = choose|order: Seq<SocketAddr>| #[trigger]
        peer::lists_in_order(peers, own, list, order);
    if list.contains(listed) {
        let i = choose|i: int| 0 <= i < list.len() && list[i] == listed;
        assert(order.contains(order[i]));
        assert(listens_at(peers, own, order[i], listed));
    }
    if exists|addr: SocketAddr| #[trigger] listens_at(peers, own, addr, listed) {
        let addr = choose|addr: SocketAddr| #[trigger] listens_at(peers, own, addr, listed);
        assert(order.contains(addr));
        let i = choose|i: int| 0 <= i < order.len() && order[i] == addr;
        assert(list[i] == listed);
    }
}

/// The asker is not listed to itself, unless a peer listens on an address that
/// differs from its own only in what the exchange form leaves out.
pub proof fn law_asker_is_not_listed(
    peers: Map<SocketAddr, Peer>,
    own: SocketAddr,
    list: Seq<SerializableSocketAddr>,
)
    requires
        peer::lists_others(peers, own, list),
        forall|addr: SocketAddr| #[trigger]
            peers.contains_key(addr) && SerializableSocketAddr::of_sock_addr(
                peers[addr].listener_addr,
            ) == SerializableSocketAddr::of_sock_addr(own) ==> peers[addr].listener_addr == own,
    ensures
        !list.contains(SerializableSocketAddr::of_sock_addr(own)),
{
    law_list_is_exact(peers, own, list, SerializableSocketAddr::of_sock_addr(own));
}

/// A connection that is served to its end ends in one of two ways. Either the user
/// of the network is told exactly once that the peer is disconnected, after
/// everything else that was done, then the peer is removed, and there is no error;
/// or a write failed, nobody is told and no peer is removed.
pub proof fn law_connection_ends(events: Seq<IoEvent>)
    requires
        session::served(events),
    ensures
        ({
            let last = events.len() - 1;
            match session::io_action(events[last]) {
                IoAction::Finish => {
                    &&& last >= 2
                    &&& session::io_action(events[last - 2]) is Disconnect
                    &&& session::io_action(events[last - 1]) is RemovePeer
                    &&& forall|i: int|
                        0 <= i < last - 2 ==> {
                            let action = session::io_action(#[trigger] events[i]);
                            action is Write || action is Process || action is Wait
                        }
                },
                IoAction::Abort => {
                    &&& events[last] == IoEvent::MessageWritten(false)
                    &&& forall|i: int|
                        0 <= i < last ==> {
                            let action = session::io_action(#[trigger] events[i]);
                            action is Write || action is Process || action is Wait
                        }
                },
                _ => true,
            }
        }),
{
    let last = events.len() - 1;
    assert forall|i: int| 0 <= i < last implies session::follows(
        session::io_action(#[trigger] events[i]),
        events[i + 1],
    ) by {
        assert(session::follows(session::io_action(events[i + 1 - 1]), events[i + 1]));
    }
    match session::io_action(events[last]) {
        IoAction::Finish => {
            assert(session::follows(session::io_action(events[last - 1]), events[last]));
            assert(session::follows(session::io_action(events[last - 2]), events[last - 1]));
            lemma_serving(events, last - 2);
        },
        IoAction::Abort => {
            lemma_serving(events, last);
        },
        _ => {},
    }
}

/// Before an event that follows on serving, everything was serving.
proof fn lemma_serving(events: Seq<IoEvent>, end: int)
    requires
        session::served(events),
        0 <= end < events.len(),
        !(events[end] is DisconnectTold),
        !(events[end] is PeerRemoved),
    ensures
        forall|i: int|
            0 <= i < end ==> {
                let action = session::io_action(#[trigger] events[i]);
                action is Write || action is Process || action is Wait
            },
    decreases end,
{
    if end > 0 {
        assert(session::follows(session::io_action(events[end - 1]), events[end]));
        lemma_serving(events, end - 1);
    }
}

/// A disconnection is told where a read failed or held no packet, and where a
/// packet could not be processed or said goodbye, and nowhere else. Only a failed
/// write ends with an error.
pub proof fn law_what_ends_a_connection(event: IoEvent, first: Seq<u8>)
    ensures
        session::io_action(event) is Disconnect <==> {
            ||| event is ReadFailed
            ||| event == IoEvent::SegmentsRead(None)
            ||| event == IoEvent::SegmentsRead(Some(0))
            ||| event == IoEvent::PacketProcessed(None)
            ||| event == IoEvent::PacketProcessed(Some(false))
        },
        session::io_action(event) is Abort <==> event == IoEvent::MessageWritten(false),
        first.len() <= 4 ==> {
            &&& framing::segment_state(first, Seq::empty()) matches SegmentState::Done(size)
            &&& session::io_action(IoEvent::SegmentsRead(Some(size))) is Disconnect
        },
{
}

/// Whether the turn of the listed peer with index `j` comes between `event` and
/// `action`: all before it have had theirs, and it is passed over or tried.
pub open spec fn has_turn(
    list: Seq<SerializableSocketAddr>,
    event: JoinEvent,
    action: JoinAction,
    j: int,
) -> bool {
    &&& session::join_start(event) <= j < list.len()
    &&& action matches JoinAction::Connect { index, .. } ==> j <= index
}

/// Each step goes on behind all that were tried before it.
proof fn lemma_join_ascends(
    list: Seq<SerializableSocketAddr>,
    accepting: SocketAddr,
    peers: Seq<Map<SocketAddr, Peer>>,
    events: Seq<JoinEvent>,
    actions: Seq<JoinAction>,
    earlier: int,
    later: int,
)
    requires
        session::joining(list, accepting, peers, events, actions),
        0 <= earlier < later < events.len(),
    ensures
        actions[earlier] matches JoinAction::Connect { index, .. } && index
            < session::join_start(events[later]),
    decreases later - earlier,
{
    assert(session::join_follows(actions[later - 1], events[later]));
    if earlier < later - 1 {
        lemma_join_ascends(list, accepting, peers, events, actions, earlier, later - 1);
        assert(session::join_step(
            peers[later - 1],
            list,
            accepting,
            events[later - 1],
            actions[later - 1],
        ));
    }
}

/// From a step on that is not behind it, a listed peer has its turn.
proof fn lemma_turn_comes(
    list: Seq<SerializableSocketAddr>,
    accepting: SocketAddr,
    peers: Seq<Map<SocketAddr, Peer>>,
    events: Seq<JoinEvent>,
    actions: Seq<JoinAction>,
    from: int,
    j: int,
) -> (i: int)
    requires
        session::joining(list, accepting, peers, events, actions),
        actions.last() is TellConnected,
        0 <= from < events.len(),
        session::join_start(events[from]) <= j < list.len(),
    ensures
        from <= i < events.len(),
        has_turn(list, events[i], actions[i], j),
    decreases events.len() - from,
{
    if has_turn(list, events[from], actions[from], j) {
        from
    } else {
        assert(session::join_follows(actions[from + 1 - 1], events[from + 1]));
        lemma_turn_comes(list, accepting, peers, events, actions, from + 1, j)
    }
}

/// The number of steps up to `i` is at most the index where it goes on.
proof fn lemma_join_length(
    list: Seq<SerializableSocketAddr>,
    accepting: SocketAddr,
    peers: Seq<Map<SocketAddr, Peer>>,
    events: Seq<JoinEvent>,
    actions: Seq<JoinAction>,
    i: int,
)
    requires
        session::joining(list, accepting, peers, events, actions),
        0 <= i < events.len(),
    ensures
        i <= session::join_start(events[i]) <= list.len(),
    decreases i,
{
    if i > 0 {
        lemma_join_length(list, accepting, peers, events, actions, i - 1);
        assert(session::join_follows(actions[i - 1], events[i]));
        assert(session::join_step(peers[i - 1], list, accepting, events[i - 1], actions[i - 1]));
    }
}

/// Joining tries listed peers only, one by one in the order of the list, without
/// asking any for its peers, and tells the user at most once, as the last thing,
/// with the address of the peer that accepted us. It takes at most one step more
/// than there are listed peers.
pub proof fn law_joining_goes_down_the_list(
    list: Seq<SerializableSocketAddr>,
    accepting: SocketAddr,
    peers: Seq<Map<SocketAddr, Peer>>,
    events: Seq<JoinEvent>,
    actions: Seq<JoinAction>,
    earlier: int,
    later: int,
)
    requires
        session::joining(list, accepting, peers, events, actions),
        0 <= earlier < later < events.len(),
    ensures
        actions[earlier] matches JoinAction::Connect { index, addr, request_peers } && {
            &&& index < list.len()
            &&& addr == list[index as int].sock_addr()
            &&& !request_peers
            &&& match actions[later] {
                JoinAction::Connect { index: next, .. } => index < next,
                JoinAction::TellConnected { addr: told } => told == accepting && later
                    == events.len() - 1,
            }
        },
        events.len() <= list.len() + 1,
{
    lemma_join_ascends(list, accepting, peers, events, actions, earlier, later);
    lemma_join_length(list, accepting, peers, events, actions, events.len() - 1);
    assert(session::join_step(peers[earlier], list, accepting, events[earlier], actions[earlier]));
    assert(session::join_step(peers[later], list, accepting, events[later], actions[later]));
    if later < events.len() - 1 {
        assert(session::join_follows(actions[later + 1 - 1], events[later + 1]));
    }
}

/// Whoever joins reaches for everyone: by the time the user is told, each listed
/// peer has had its turn exactly once, and it was tried then if and only if it was
/// not connected, whatever came of the attempts before it.
pub proof fn law_everyone_is_tried(
    list: Seq<SerializableSocketAddr>,
    accepting: SocketAddr,
    peers: Seq<Map<SocketAddr, Peer>>,
    events: Seq<JoinEvent>,
    actions: Seq<JoinAction>,
    j: int,
)
    requires
        session::joining(list, accepting, peers, events, actions),
        actions.last() is TellConnected,
        0 <= j < list.len(),
    ensures
        exists|i: int|
            0 <= i < events.len() && #[trigger] has_turn(list, events[i], actions[i], j),
        forall|i: int|
            0 <= i < events.len() && #[trigger] has_turn(list, events[i], actions[i], j) ==> {
                peers[i].contains_key(list[j].sock_addr()) <==> !tries(actions[i], j)
            },
        forall|a: int, b: int|
            #![trigger has_turn(list, events[a], actions[a], j), has_turn(list, events[b], actions[b], j)]
            0 <= a < events.len() && 0 <= b < events.len() && has_turn(
                list,
                events[a],
                actions[a],
                j,
            ) && has_turn(list, events[b], actions[b], j) ==> a == b,
        forall|i: int|
            0 <= i < events.len() && tries(#[trigger] actions[i], j) ==> has_turn(
                list,
                events[i],
                actions[i],
                j,
            ),
{
    let turn = lemma_turn_comes(list, accepting, peers, events, actions, 0, j);
    assert(has_turn(list, events[turn], actions[turn], j));
    assert forall|i: int|
        0 <= i < events.len() && #[trigger] has_turn(list, events[i], actions[i], j) implies (
    peers[i].contains_key(list[j].sock_addr()) <==> !tries(actions[i], j)) by {
        assert(session::join_step(peers[i], list, accepting, events[i], actions[i]));
    }
    assert forall|a: int, b: int|
        #![trigger has_turn(list, events[a], actions[a], j), has_turn(list, events[b], actions[b], j)]
        0 <= a < events.len() && 0 <= b < events.len() && has_turn(list, events[a], actions[a], j)
            && has_turn(list, events[b], actions[b], j) implies a == b by {
        if a < b {
            lemma_join_ascends(list, accepting, peers, events, actions, a, b);
        } else if b < a {
            lemma_join_ascends(list, accepting, peers, events, actions, b, a);
        }
    }
    assert forall|i: int| 0 <= i < events.len() && tries(#[trigger] actions[i], j) implies has_turn(
        list,
        events[i],
        actions[i],
        j,
    ) by {
        assert(session::join_step(peers[i], list, accepting, events[i], actions[i]));
    }
}

/// Whether `action` tries the listed peer with index `j`.
pub open spec fn tries(action: JoinAction, j: int) -> bool {
    action matches JoinAction::Connect { index, .. } && index == j
}

/// A removed peer is no longer connected, and the others still are, as they were.
pub proof fn law_removal_spares_the_others(
    peers: Map<SocketAddr, Peer>,
    addr: SocketAddr,
    other: SocketAddr,
)
    requires
        other != addr,
    ensures
        !peers.remove(addr).contains_key(addr),
        peers.remove(addr).contains_key(other) == peers.contains_key(other),
        peers.contains_key(other) ==> peers.remove(addr)[other] == peers[other],
{
}

/// Taking a new peer away undoes adding it, and neither touches the other peers.
pub proof fn law_leave_undoes_join(
    peers: Map<SocketAddr, Peer>,
    addr: SocketAddr,
    peer: Peer,
    other: SocketAddr,
)
    requires
        !peers.contains_key(addr),
        other != addr,
    ensures
        peers.insert(addr, peer).remove(addr) == peers,
        peers.insert(addr, peer).contains_key(other) == peers.contains_key(other),
        peers.contains_key(other) ==> peers.insert(addr, peer)[other] == peers[other],
        peers.dom().finite() ==> peers.insert(addr, peer).dom().len() == peers.dom().len() + 1,
{
    assert(peers.insert(addr, peer).remove(addr) =~= peers);
}

} // verus!
