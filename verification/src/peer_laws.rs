//! What the operations of a peer do, stated over calls of them: how it frames
//! packets and puts them together, whom it knows, what it answers, sends and
//! delivers, and how it joins and leaves.
//!
//! As for streams, `call_ensures(operation, arguments, result)` says that the
//! operation may return `result` for `arguments`.

use vstd::prelude::*;

use crate::binary_stream;
use crate::binary_stream::{BinaryStream, BinaryStreamMode};
use crate::endian;
use crate::framing;
use crate::framing::{SegmentEvent, SegmentProgress, SegmentState};
use crate::laws;
use crate::net::{Ipv4Addr, SocketAddr, SocketAddrV4, SocketAddrV6};
use crate::packet;
use crate::packet::{
    BantamPacketType, HandshakePacket, HandshakeRequestPacket, HandshakeResponsePacket,
    PacketHeader, PacketType, Serializable,
};
use crate::peer;
use crate::peer::{BantamError, Peer, PeerSharedState, SendFailure, Tx};
use crate::session;
use crate::session::{
    ConnectAction, ConnectEvent, IoAction, IoEvent, JoinAction, JoinEvent, PacketOutcome,
};
use crate::util::SerializableSocketAddr;
use crate::wire_laws;

verus! {

/// A packet on a connection: the number of the bytes that follow in four digits,
/// the number of its kind, and its content.
pub open spec fn on_the_wire(number: u8, content: Seq<u8>) -> Seq<u8> {
    wire_laws::digits(1 + content.len(), 4) + seq![number] + content
}

proof fn lemma_on_the_wire(kind: BantamPacketType, content: Seq<u8>)
    ensures
        framing::packet_bytes(kind, content) == on_the_wire(wire_laws::number_of(kind), content),
{
    wire_laws::law_bytes_are_digits(1 + content.len(), 4);
    wire_laws::law_kinds_have_numbers(kind, 0, None);
    assert(framing::packet_bytes(kind, content) =~= on_the_wire(
        wire_laws::number_of(kind),
        content,
    ));
}

/// What is sent for a packet is its size, its kind and its content.
pub proof fn law_packets_are_framed<T: PacketHeader<BantamPacketType> + Serializable>(
    packet: T,
    bytes: Vec<u8>,
)
    ensures
        call_ensures(framing::construct_bantam_packet::<T>, (packet,), bytes) ==> bytes@
            == on_the_wire(wire_laws::number_of(packet.kind()), packet.encoded()),
{
    lemma_on_the_wire(packet.kind(), packet.encoded());
}

/// A packet without its size is taken apart into its kind and its content.
pub proof fn law_packets_are_taken_apart(
    bytes: Vec<u8>,
    kind: BantamPacketType,
    stream: BinaryStream,
)
    ensures
        call_ensures(framing::deconstruct_bantam_packet, (bytes,), (kind, stream)) ==> {
            &&& wire_laws::number_of(kind) == bytes@[0]
            &&& stream.mode == BinaryStreamMode::Read
            &&& stream.buffer@ == bytes@.skip(1)
        },
{
}

/// The size of a packet is the number whose digits are the first four bytes, and
/// they leave the segment.
pub proof fn law_size_leaves_the_segment(buffer: &mut Vec<u8>, size: usize)
    requires
        old(buffer)@.len() >= 4,
    ensures
        call_ensures(framing::check_first_packet_segment, (buffer,), size) ==> {
            &&& size <= u32::MAX
            &&& wire_laws::digits(size as nat, 4) == old(buffer)@.take(4)
            &&& final(buffer)@ == old(buffer)@.skip(4)
        },
{
    wire_laws::law_digits_are_bytes(old(buffer)@.take(4));
    endian::lemma_le_value_bound(old(buffer)@.take(4));
    endian::lemma_le_bounds();
}

/// The first segment decides: up to four bytes hold no packet. Else the size leaves
/// it, and the packet is there once as many bytes have come as it says, or more;
/// until then the rest is awaited.
pub proof fn law_first_segment(
    count: usize,
    buffer: &mut Vec<u8>,
    total: u32,
    state: SegmentState,
)
    requires
        count > 4 ==> old(buffer)@.len() >= 4 && old(buffer)@.take(4) == wire_laws::digits(
            total as nat,
            4,
        ),
    ensures
        call_ensures(framing::read_segments, (count, buffer), state) ==> {
            &&& count <= 4 ==> state == SegmentState::Done(0) && final(buffer)@ == old(buffer)@
            &&& count > 4 ==> final(buffer)@ == old(buffer)@.skip(4)
            &&& count > 4 && count - 4 >= total ==> state == SegmentState::Done(total as usize)
            &&& count > 4 && count - 4 < total ==> state == SegmentState::Reading(
                SegmentProgress {
                    total_packet_size: total as usize,
                    total_packet_bytes_received: (count - 4) as usize,
                },
            )
        },
{
    if count > 4 {
        wire_laws::lemma_announced(old(buffer)@, total);
    }
}

/// Each further segment is appended, and counts towards the size in the same way; a
/// connection that takes too long or fails is given up, and changes nothing.
pub proof fn law_further_segments(
    progress: SegmentProgress,
    buffer: &mut Vec<u8>,
    event: SegmentEvent,
    state: SegmentState,
)
    ensures
        call_ensures(framing::resume_segments, (progress, buffer, event), state) ==> match event {
            SegmentEvent::Received(segment) => {
                let received = progress.total_packet_bytes_received + segment@.len();
                &&& final(buffer)@ == old(buffer)@ + segment@
                &&& received >= progress.total_packet_size ==> state == SegmentState::Done(
                    progress.total_packet_size,
                )
                &&& received < progress.total_packet_size ==> state == SegmentState::Reading(
                    SegmentProgress {
                        total_packet_size: progress.total_packet_size,
                        total_packet_bytes_received: received as usize,
                    },
                )
            },
            SegmentEvent::TimedOut => final(buffer)@ == old(buffer)@ && state
                == SegmentState::TimedOut(BantamError::ReadTimeout),
            SegmentEvent::Failed => final(buffer)@ == old(buffer)@ && state
                == SegmentState::Failed,
        },
{
}

/// It does not matter where a segment is split: one read of both parts leads to the
/// same state and the same bytes as a read of the first and one of the second.
pub proof fn law_splitting_does_not_matter(
    whole: &mut Vec<u8>,
    first: &mut Vec<u8>,
    both: &mut Vec<u8>,
    second: Vec<u8>,
    progress: SegmentProgress,
    at_once: SegmentState,
    in_two: SegmentState,
)
    requires
        old(whole)@ == old(first)@ + second@,
        old(both)@ == final(first)@,
        call_ensures(framing::read_segments, (old(whole).len(), whole), at_once),
        call_ensures(
            framing::read_segments,
            (old(first).len(), first),
            SegmentState::Reading(progress),
        ),
        call_ensures(
            framing::resume_segments,
            (progress, both, SegmentEvent::Received(second)),
            in_two,
        ),
    ensures
        at_once == in_two,
        final(whole)@ == final(both)@,
{
    assert(old(first)@.len() > 4);
    assert(old(whole)@.take(4) =~= old(first)@.take(4));
    endian::lemma_le_value_bound(old(first)@.take(4));
    endian::lemma_le_bounds();
    assert(old(whole)@.skip(4) =~= old(first)@.skip(4) + second@);
}

/// A packet has arrived as soon as all its bytes have, whatever comes behind it:
/// reading is done then with its size, and its payload stands first.
pub proof fn law_packet_arrives_before_others(
    kind: BantamPacketType,
    content: Seq<u8>,
    rest: Seq<u8>,
    first: Seq<u8>,
    later: Seq<u8>,
)
    requires
        1 + content.len() <= u32::MAX,
        first + later == framing::packet_bytes(kind, content) + rest,
        first.len() > 4,
    ensures
        framing::segment_state(first, later) == SegmentState::Done((1 + content.len()) as usize),
        (first + later).skip(4).take(1 + content.len() as int) == framing::payload(kind, content),
        (first + later).skip(4).skip(1 + content.len() as int) == rest,
{
    let payload = framing::payload(kind, content);
    let bytes = first + later;
    laws::law_byte_vec_round_trip(payload, rest);
    assert(first.take(4) =~= bytes.take(4));
    assert(bytes.skip(4).take(payload.len() as int) =~= payload);
    assert(bytes.skip(4).skip(payload.len() as int) =~= rest);
}

/// Until all bytes of a packet have come, the rest is awaited, and what has come is
/// counted.
pub proof fn law_packet_is_awaited(
    kind: BantamPacketType,
    content: Seq<u8>,
    first: Seq<u8>,
    later: Seq<u8>,
    missing: Seq<u8>,
)
    requires
        1 + content.len() <= u32::MAX,
        first + later + missing == framing::packet_bytes(kind, content),
        first.len() > 4,
        missing.len() > 0,
    ensures
        framing::segment_state(first, later) == SegmentState::Reading(
            SegmentProgress {
                total_packet_size: (1 + content.len()) as usize,
                total_packet_bytes_received: (first.len() + later.len() - 4) as usize,
            },
        ),
{
    let payload = framing::payload(kind, content);
    let bytes = first + later + missing;
    laws::law_byte_vec_round_trip(payload, Seq::empty());
    assert(bytes + Seq::<u8>::empty() =~= bytes);
    assert(first.take(4) =~= bytes.take(4));
    assert(bytes.len() == 4 + payload.len());
}

/// The port of a socket address.
pub open spec fn port_of(addr: SocketAddr) -> u16 {
    match addr {
        SocketAddr::V4(v4) => v4.port,
        SocketAddr::V6(v6) => v6.port,
    }
}

/// The address of the host of `addr` with another port.
pub open spec fn at_port(addr: SocketAddr, port: u16) -> SocketAddr {
    match addr {
        SocketAddr::V4(v4) => SocketAddr::V4(SocketAddrV4 { ip: v4.ip, port }),
        SocketAddr::V6(v6) => SocketAddr::V6(
            SocketAddrV6 { ip: v6.ip, port, flowinfo: v6.flowinfo, scope_id: v6.scope_id },
        ),
    }
}

/// A peer listens on every local IPv4 address, keeps telling where, and opens a
/// connection with a handshake that tells the port and whether it asks for peers.
pub proof fn law_listening_and_opening(
    port: u16,
    addr: SocketAddr,
    state: PeerSharedState,
    own: SocketAddr,
    asks: bool,
    bytes: Vec<u8>,
)
    ensures
        call_ensures(session::listening_addr, (port,), addr) ==> addr == SocketAddr::V4(
            SocketAddrV4 { ip: Ipv4Addr(0, 0, 0, 0), port },
        ),
        call_ensures(PeerSharedState::new, (addr,), state) && call_ensures(
            PeerSharedState::listener_addr,
            (&state,),
            own,
        ) ==> own == addr,
        call_ensures(PeerSharedState::listener_addr, (&state,), own) && call_ensures(
            session::opening_handshake,
            (&state, asks),
            bytes,
        ) ==> bytes@ == on_the_wire(
            0,
            wire_laws::digits(port_of(own) as nat, 2) + if asks {
                seq![1u8]
            } else {
                seq![0u8]
            },
        ),
{
    let request = HandshakeRequestPacket {
        handshake: HandshakePacket { listening_port: state.listener().port_spec() },
        request_peers: asks,
    };
    lemma_on_the_wire(BantamPacketType::Handshake, request.encoded());
    wire_laws::law_bytes_are_digits(request.handshake.listening_port as nat, 2);
    assert(request.encoded() =~= wire_laws::digits(request.handshake.listening_port as nat, 2)
        + if asks {
        seq![1u8]
    } else {
        seq![0u8]
    });
}

/// The handshake is sent exactly where the connection stands; else the attempt fails
/// with its own error, or with a timeout.
pub proof fn law_connecting(event: ConnectEvent, action: ConnectAction)
    ensures
        call_ensures(session::setup_outgoing_peer, (event,), action) ==> {
            &&& action == ConnectAction::SendHandshake <==> event == ConnectEvent::Connected
            &&& action == ConnectAction::ReturnError <==> event == ConnectEvent::Refused
            &&& action == ConnectAction::Fail(BantamError::ConnectionTimeout) <==> event
                == ConnectEvent::TimedOut
        },
{
}

/// Serving a connection: a queued message, and nothing else, is written; a packet
/// that was read, and nothing else, is processed; the peer stays while writing and
/// processing succeed.
pub proof fn law_serving(event: IoEvent, action: IoAction)
    ensures
        call_ensures(session::handle_peer_io_loop, (event,), action) ==> {
            &&& event matches IoEvent::MessageQueued(message) ==> action == IoAction::Write(message)
            &&& action matches IoAction::Write(message) ==> event == IoEvent::MessageQueued(message)
            &&& action is Process <==> (event matches IoEvent::SegmentsRead(Some(size)) && size > 0)
            &&& action is Wait <==> event == IoEvent::MessageWritten(true) || event
                == IoEvent::PacketProcessed(Some(true))
            &&& action is Abort <==> event == IoEvent::MessageWritten(false)
            &&& action is RemovePeer <==> event is DisconnectTold
            &&& action is Finish <==> event is PeerRemoved
            &&& action == (IoAction::Disconnect { report_error: false }) <==> {
                ||| event == IoEvent::SegmentsRead(Some(0))
                ||| event == IoEvent::PacketProcessed(Some(false))
                ||| event == IoEvent::ReadFailed { connection_reset: true }
            }
            &&& action == (IoAction::Disconnect { report_error: true }) <==> {
                ||| event == IoEvent::SegmentsRead(None)
                ||| event == IoEvent::PacketProcessed(None)
                ||| event == IoEvent::ReadFailed { connection_reset: false }
            }
        },
{
}

/// On a connection that is served, every message that was queued is written as it
/// is, every packet that was read is processed, and the next thing that happens is
/// that this is done.
pub proof fn law_nothing_is_skipped(events: Seq<IoEvent>, i: int)
    requires
        session::served(events),
        0 <= i < events.len(),
    ensures
        events[i] matches IoEvent::MessageQueued(message) ==> {
            &&& session::io_action(events[i]) == IoAction::Write(message)
            &&& i + 1 < events.len() ==> events[i + 1] is MessageWritten
        },
        events[i] matches IoEvent::SegmentsRead(Some(size)) ==> (size > 0 ==> {
            &&& session::io_action(events[i]) is Process
            &&& i + 1 < events.len() ==> events[i + 1] is PacketProcessed
        }),
        events[i] is MessageWritten ==> i > 0 && events[i - 1] is MessageQueued,
        events[i] is PacketProcessed ==> i > 0 && (events[i - 1] matches IoEvent::SegmentsRead(
            Some(size),
        ) && size > 0),
{
    if i + 1 < events.len() {
        assert(session::follows(session::io_action(events[i + 1 - 1]), events[i + 1]));
    }
    if i > 0 {
        assert(session::follows(session::io_action(events[i - 1]), events[i]));
    }
}

/// Whether `list` names the listening address of each of `peers` that listens
/// elsewhere than on `own`, as often as peers listen, and no other.
pub open spec fn names_the_others(
    list: Seq<SerializableSocketAddr>,
    peers: Map<SocketAddr, Peer>,
    own: SocketAddr,
) -> bool {
    &&& forall|listed: SerializableSocketAddr| #[trigger]
        list.contains(listed) <==> exists|addr: SocketAddr|
            {
                &&& #[trigger] peers.contains_key(addr)
                &&& peers[addr].listener_addr != own
                &&& wire_laws::stands_for(listed, peers[addr].listener_addr)
            }
    &&& list.len() == peers.dom().filter(
        |addr: SocketAddr| peers[addr].listener_addr != own,
    ).len()
}

proof fn lemma_names_the_others(
    list: Seq<SerializableSocketAddr>,
    peers: Map<SocketAddr, Peer>,
    own: SocketAddr,
)
    requires
        peer::lists_others(peers, own, list),
    ensures
        names_the_others(list, peers, own),
{
    let order = choose|order: Seq<SocketAddr>| #[trigger]
        peer::lists_in_order(peers, own, list, order);
    let others = peers.dom().filter(|addr: SocketAddr| peers[addr].listener_addr != own);
    order.unique_seq_to_set();
    assert(order.to_set() =~= others) by {
        assert forall|addr: SocketAddr| order.to_set().contains(addr) == others.contains(addr) by {
            assert(order.contains(addr) <==> peer::others(peers, own).contains(addr));
        }
    }
    assert forall|listed: SerializableSocketAddr| #[trigger]
        list.contains(listed) <==> exists|addr: SocketAddr|
            {
                &&& #[trigger] peers.contains_key(addr)
                &&& peers[addr].listener_addr != own
                &&& wire_laws::stands_for(listed, peers[addr].listener_addr)
            } by {
        laws::law_list_is_exact(peers, own, list, listed);
        if list.contains(listed) {
            let addr = choose|addr: SocketAddr| #[trigger]
                laws::listens_at(peers, own, addr, listed);
            assert(peers.contains_key(addr));
        }
        if exists|addr: SocketAddr|
            {
                &&& #[trigger] peers.contains_key(addr)
                &&& peers[addr].listener_addr != own
                &&& wire_laws::stands_for(listed, peers[addr].listener_addr)
            } {
            let addr = choose|addr: SocketAddr|
                {
                    &&& #[trigger] peers.contains_key(addr)
                    &&& peers[addr].listener_addr != own
                    &&& wire_laws::stands_for(listed, peers[addr].listener_addr)
                };
            assert(laws::listens_at(peers, own, addr, listed));
        }
    }
}

/// Whether `reply` is a handshake response with `list`, which names the peers that
/// listen elsewhere than on `own` where they were asked for, and nobody else.
pub open spec fn replies_with(
    reply: Seq<u8>,
    asks: bool,
    peers: Map<SocketAddr, Peer>,
    own: SocketAddr,
    list: Seq<SerializableSocketAddr>,
) -> bool {
    &&& reply == on_the_wire(1, wire_laws::digits(list.len(), 4) + packet::items_encoded(list))
    &&& asks ==> names_the_others(list, peers, own)
    &&& !asks ==> list.len() == 0
}

/// Whether `reply` is such a response, with some list.
pub open spec fn is_reply(
    reply: Seq<u8>,
    asks: bool,
    peers: Map<SocketAddr, Peer>,
    own: SocketAddr,
) -> bool {
    exists|list: Seq<SerializableSocketAddr>| #[trigger]
        replies_with(reply, asks, peers, own, list)
}

proof fn lemma_is_reply(
    reply: Seq<u8>,
    request: HandshakeRequestPacket,
    own: SocketAddr,
    peers: Map<SocketAddr, Peer>,
)
    requires
        session::answers(reply, request, own, peers),
    ensures
        is_reply(reply, request.request_peers, peers, own),
{
    let list = choose|list: Seq<SerializableSocketAddr>| #[trigger]
        session::answers_with(reply, request, own, peers, list);
    let content = packet::response_encoded(list);
    lemma_on_the_wire(BantamPacketType::HandshakeResponse, content);
    wire_laws::law_bytes_are_digits(list.len(), 4);
    if request.request_peers {
        lemma_names_the_others(list, peers, own);
    }
    assert(replies_with(reply, request.request_peers, peers, own, list));
}

proof fn lemma_request(bytes: Seq<u8>, port: u16)
    requires
        bytes.len() >= 3,
        bytes.take(2) == wire_laws::digits(port as nat, 2),
    ensures
        session::request_of(bytes).handshake.listening_port == port,
        session::request_of(bytes).request_peers <==> bytes[2] == 1,
{
    wire_laws::law_bytes_are_digits(port as nat, 2);
    endian::lemma_le_bounds();
    endian::law_value_round_trip(port as nat, 2);
}

/// Whoever introduces itself is known by the port that it tells and the host of its
/// connection, whatever the port of the connection.
pub proof fn law_listening_port_is_the_told_one(
    addr: SocketAddr,
    request: HandshakeRequestPacket,
    tx: Tx,
)
    ensures
        session::introduced(addr, request, tx).listener_addr == at_port(
            addr,
            request.handshake.listening_port,
        ),
        session::introduced(addr, request, tx).listener_addr.port_spec()
            == request.handshake.listening_port,
        session::introduced(addr, request, tx).listener_addr.ip_spec() == addr.ip_spec(),
        session::introduced(addr, request, tx).sender == tx,
{
}

/// A handshake adds its sender under the address of the connection, listening on the
/// port that it told, and touches nobody else. The reply names the other peers where
/// they were asked for.
pub proof fn law_introduction(
    stream: BinaryStream,
    addr: SocketAddr,
    tx: Tx,
    state: &mut PeerSharedState,
    reply: Vec<u8>,
    port: u16,
)
    requires
        stream.buffer@.len() >= 3,
        stream.buffer@.take(2) == wire_laws::digits(port as nat, 2),
    ensures
        call_ensures(session::introduce_peer, (stream, addr, tx, state), reply) ==> {
            &&& final(state)@ == old(state)@.insert(
                addr,
                Peer { listener_addr: at_port(addr, port), sender: tx },
            )
            &&& is_reply(
                reply@,
                stream.buffer@[2] == 1,
                final(state)@,
                at_port(addr, port),
            )
        },
{
    lemma_request(stream.buffer@, port);
    let request = session::request_of(stream.buffer@);
    if call_ensures(session::introduce_peer, (stream, addr, tx, state), reply) {
        lemma_is_reply(reply@, request, at_port(addr, port), final(state)@);
    }
}

/// Whether `message`, and nothing else, went to the peer under `addr`, if there is
/// one, and to no other; and whether `result` tells truthfully if its queue took it
/// in.
pub open spec fn goes_to(
    before: Map<SocketAddr, Peer>,
    after: Map<SocketAddr, Peer>,
    message: Seq<u8>,
    addr: SocketAddr,
    result: Result<(), SendFailure>,
) -> bool {
    &&& after.dom() == before.dom()
    &&& forall|other: SocketAddr| #[trigger]
        before.contains_key(other) && other != addr ==> after[other] == before[other]
    &&& !before.contains_key(addr) ==> result is Ok
    &&& before.contains_key(addr) ==> {
        &&& after[addr].listener_addr == before[addr].listener_addr
        &&& result is Ok ==> {
            &&& peer::sent(after[addr].sender) == peer::sent(before[addr].sender).push(message)
            &&& peer::refused(after[addr].sender) == peer::refused(before[addr].sender)
        }
        &&& result matches Err(failure) ==> {
            &&& failure.addr == addr
            &&& failure.bytes@ == message
            &&& peer::sent(after[addr].sender) == peer::sent(before[addr].sender)
            &&& peer::refused(after[addr].sender) == peer::refused(before[addr].sender).push(
                message,
            )
        }
    }
}

/// Whether `message`, and nothing else, went to every peer once; or, where `result`
/// is a failure, to some until one refused it, which `result` names.
pub open spec fn goes_to_all(
    before: Map<SocketAddr, Peer>,
    after: Map<SocketAddr, Peer>,
    message: Seq<u8>,
    result: Result<(), SendFailure>,
) -> bool {
    &&& after.dom() == before.dom()
    &&& result matches Err(failure) ==> before.contains_key(failure.addr) && failure.bytes@
        == message
    &&& forall|addr: SocketAddr| #[trigger]
        before.contains_key(addr) ==> {
            let was = before[addr].sender;
            let is = after[addr].sender;
            &&& after[addr].listener_addr == before[addr].listener_addr
            &&& result is Ok ==> peer::sent(is) == peer::sent(was).push(message) && peer::refused(
                is,
            ) == peer::refused(was)
            &&& result matches Err(failure) ==> if addr == failure.addr {
                peer::sent(is) == peer::sent(was) && peer::refused(is) == peer::refused(was).push(
                    message,
                )
            } else {
                ||| after[addr] == before[addr]
                ||| peer::sent(is) == peer::sent(was).push(message) && peer::refused(is)
                    == peer::refused(was)
            }
        }
}

/// The message for data: a data packet with its length and its bytes.
pub open spec fn data_message(bytes: Seq<u8>) -> Seq<u8> {
    on_the_wire(2, wire_laws::digits(bytes.len(), 4) + bytes)
}

proof fn lemma_data_message(bytes: Seq<u8>)
    ensures
        framing::packet_bytes(BantamPacketType::Data, binary_stream::counted(bytes))
            == data_message(bytes),
{
    lemma_on_the_wire(BantamPacketType::Data, binary_stream::counted(bytes));
    wire_laws::law_bytes_are_digits(bytes.len(), 4);
}

/// What is sent to one peer goes there once and to nobody else.
pub proof fn law_one_is_sent_to<T: PacketHeader<BantamPacketType> + Serializable>(
    state: &mut PeerSharedState,
    bytes: Vec<u8>,
    packet: T,
    addr: SocketAddr,
    result: Result<(), SendFailure>,
)
    ensures
        call_ensures(PeerSharedState::unicast, (state, bytes, addr), result) ==> goes_to(
            old(state)@,
            final(state)@,
            bytes@,
            addr,
            result,
        ),
        call_ensures(session::send_packet_to, (bytes, addr, state), result) ==> goes_to(
            old(state)@,
            final(state)@,
            bytes@,
            addr,
            result,
        ),
        call_ensures(session::send_bantam_packet_to::<T>, (packet, addr, state), result)
            ==> goes_to(
            old(state)@,
            final(state)@,
            on_the_wire(wire_laws::number_of(packet.kind()), packet.encoded()),
            addr,
            result,
        ),
        call_ensures(session::send_data_packet_to, (bytes, addr, state), result) ==> goes_to(
            old(state)@,
            final(state)@,
            data_message(bytes@),
            addr,
            result,
        ),
{
    lemma_on_the_wire(packet.kind(), packet.encoded());
    lemma_data_message(bytes@);
}

/// What is sent to all goes to everyone once, or up to the first that refuses it.
pub proof fn law_all_are_sent_to<T: PacketHeader<BantamPacketType> + Serializable>(
    state: &mut PeerSharedState,
    bytes: Vec<u8>,
    packet: T,
    result: Result<(), SendFailure>,
)
    ensures
        call_ensures(PeerSharedState::broadcast, (state, bytes), result) ==> goes_to_all(
            old(state)@,
            final(state)@,
            bytes@,
            result,
        ),
        call_ensures(session::send_packet, (bytes, state), result) ==> goes_to_all(
            old(state)@,
            final(state)@,
            bytes@,
            result,
        ),
        call_ensures(session::send_bantam_packet::<T>, (packet, state), result) ==> goes_to_all(
            old(state)@,
            final(state)@,
            on_the_wire(wire_laws::number_of(packet.kind()), packet.encoded()),
            result,
        ),
        call_ensures(session::send_data_packet, (bytes, state), result) ==> goes_to_all(
            old(state)@,
            final(state)@,
            data_message(bytes@),
            result,
        ),
        call_ensures(session::shutdown, (state,), result) ==> goes_to_all(
            old(state)@,
            final(state)@,
            on_the_wire(3, seq![0u8]),
            result,
        ),
{
    lemma_on_the_wire(packet.kind(), packet.encoded());
    lemma_on_the_wire(BantamPacketType::Bye, seq![0u8]);
    lemma_data_message(bytes@);
}

/// What a queue replied is reported with the peer it belongs to.
pub proof fn law_replies_are_reported(
    addr: SocketAddr,
    reply: Result<(), Vec<u8>>,
    result: Result<(), SendFailure>,
)
    ensures
        call_ensures(peer::delivery_report, (addr, reply), result) ==> {
            &&& result is Ok <==> reply is Ok
            &&& result matches Err(failure) ==> failure.addr == addr && (reply matches Err(back)
                && failure.bytes@ == back@)
        },
{
}

/// Whether a handshake was answered: its sender is added, listening on the port that
/// it told, and a reply to it is sent on its own connection and to nobody else.
pub open spec fn is_answered(
    before: Map<SocketAddr, Peer>,
    after: Map<SocketAddr, Peer>,
    addr: SocketAddr,
    tx: Tx,
    port: u16,
    asks: bool,
    result: Result<(), SendFailure>,
) -> bool {
    let joined = before.insert(addr, Peer { listener_addr: at_port(addr, port), sender: tx });
    exists|reply: Seq<u8>|
        {
            &&& #[trigger] is_reply(reply, asks, joined, at_port(addr, port))
            &&& goes_to(joined, after, reply, addr, result)
        }
}

proof fn lemma_is_answered(
    before: Map<SocketAddr, Peer>,
    after: Map<SocketAddr, Peer>,
    addr: SocketAddr,
    tx: Tx,
    port: u16,
    bytes: Seq<u8>,
    result: Result<(), SendFailure>,
)
    requires
        bytes.len() >= 3,
        bytes.take(2) == wire_laws::digits(port as nat, 2),
        session::answer_report(
            before.insert(addr, session::introduced(addr, session::request_of(bytes), tx)),
            after,
            session::request_of(bytes),
            addr,
            result,
        ),
    ensures
        is_answered(before, after, addr, tx, port, bytes[2] == 1, result),
{
    lemma_request(bytes, port);
    let request = session::request_of(bytes);
    let joined = before.insert(addr, Peer { listener_addr: at_port(addr, port), sender: tx });
    let reply = choose|reply: Seq<u8>|
        {
            &&& #[trigger] session::answers(reply, request, joined[addr].listener_addr, joined)
            &&& peer::unicast_report(joined, after, reply, addr, result)
        };
    lemma_is_reply(reply, request, at_port(addr, port), joined);
    assert(goes_to(joined, after, reply, addr, result));
}

/// A handshake is answered.
pub proof fn law_handshakes_are_answered(
    stream: BinaryStream,
    addr: SocketAddr,
    tx: Tx,
    state: &mut PeerSharedState,
    result: Result<(), SendFailure>,
    port: u16,
)
    requires
        stream.buffer@.len() >= 3,
        stream.buffer@.take(2) == wire_laws::digits(port as nat, 2),
    ensures
        call_ensures(session::process_handshake_packet, (stream, addr, tx, state), result)
            ==> is_answered(
            old(state)@,
            final(state)@,
            addr,
            tx,
            port,
            stream.buffer@[2] == 1,
            result,
        ),
{
    if call_ensures(session::process_handshake_packet, (stream, addr, tx, state), result) {
        lemma_is_answered(
            old(state)@,
            final(state)@,
            addr,
            tx,
            port,
            stream.buffer@,
            result,
        );
    }
}

proof fn lemma_response(
    bytes: Seq<u8>,
    list: Seq<SerializableSocketAddr>,
    rest: Seq<u8>,
    response: HandshakeResponsePacket,
)
    requires
        list.len() <= u32::MAX,
        bytes == wire_laws::digits(list.len(), 4) + packet::items_encoded(list) + rest,
        response.read_from(bytes),
    ensures
        response.peers@ == list,
{
    wire_laws::law_bytes_are_digits(list.len(), 4);
    assert(bytes =~= packet::response_encoded(list) + rest);
    laws::lemma_response_list(list, rest, response);
}

/// A response adds its sender, listening where it was reached, touches nobody else,
/// and gives the listed peers in their order.
pub proof fn law_responses_are_taken_in(
    stream: BinaryStream,
    addr: SocketAddr,
    tx: Tx,
    state: &mut PeerSharedState,
    response: HandshakeResponsePacket,
    list: Seq<SerializableSocketAddr>,
    rest: Seq<u8>,
)
    requires
        list.len() <= u32::MAX,
        stream.buffer@ == wire_laws::digits(list.len(), 4) + packet::items_encoded(list) + rest,
    ensures
        call_ensures(
            session::process_handshake_response_packet,
            (stream, addr, tx, state),
            response,
        ) ==> {
            &&& final(state)@ == old(state)@.insert(addr, Peer { listener_addr: addr, sender: tx })
            &&& response.peers@ == list
        },
{
    if call_ensures(
        session::process_handshake_response_packet,
        (stream, addr, tx, state),
        response,
    ) {
        lemma_response(stream.buffer@, list, rest, response);
    }
}

/// Data that was received is delivered as it was sent, and changes nothing.
pub proof fn law_data_is_delivered(
    bytes: Vec<u8>,
    addr: SocketAddr,
    tx: Tx,
    state: &mut PeerSharedState,
    outcome: Result<PacketOutcome, SendFailure>,
    data: Seq<u8>,
    rest: Seq<u8>,
)
    requires
        data.len() <= u32::MAX,
        bytes@ == seq![2u8] + wire_laws::digits(data.len(), 4) + data + rest,
    ensures
        call_ensures(session::process_packet, (bytes, addr, tx, state), outcome) ==> {
            &&& final(state)@ == old(state)@
            &&& outcome matches Ok(PacketOutcome::Received(delivered)) && delivered@ == data
        },
{
    wire_laws::law_bytes_are_digits(data.len(), 4);
    laws::law_byte_vec_round_trip(data, rest);
    assert(bytes@.skip(1) =~= binary_stream::counted(data) + rest);
}

/// A goodbye is noticed, and changes nothing by itself.
pub proof fn law_goodbyes_are_noticed(
    bytes: Vec<u8>,
    addr: SocketAddr,
    tx: Tx,
    state: &mut PeerSharedState,
    outcome: Result<PacketOutcome, SendFailure>,
)
    requires
        bytes@.len() > 0,
        bytes@[0] == 3,
    ensures
        call_ensures(session::process_packet, (bytes, addr, tx, state), outcome) ==> {
            &&& final(state)@ == old(state)@
            &&& outcome matches Ok(PacketOutcome::Left)
        },
{
}

/// A handshake packet is answered as `process_handshake_packet` answers it, and
/// processing it fails exactly where the reply is refused.
pub proof fn law_handshake_packets_are_processed(
    bytes: Vec<u8>,
    addr: SocketAddr,
    tx: Tx,
    state: &mut PeerSharedState,
    outcome: Result<PacketOutcome, SendFailure>,
    port: u16,
)
    requires
        bytes@.len() >= 4,
        bytes@[0] == 0,
        bytes@.subrange(1, 3) == wire_laws::digits(port as nat, 2),
    ensures
        call_ensures(session::process_packet, (bytes, addr, tx, state), outcome) ==> {
            &&& outcome matches Ok(done) ==> done is Introduced
            &&& is_answered(
                old(state)@,
                final(state)@,
                addr,
                tx,
                port,
                bytes@[3] == 1,
                match outcome {
                    Ok(_) => Ok(()),
                    Err(failure) => Err(failure),
                },
            )
        },
{
    if call_ensures(session::process_packet, (bytes, addr, tx, state), outcome) {
        let content = bytes@.skip(1);
        assert(content.take(2) =~= bytes@.subrange(1, 3));
        lemma_is_answered(
            old(state)@,
            final(state)@,
            addr,
            tx,
            port,
            content,
            match outcome {
                Ok(_) => Ok(()),
                Err(failure) => Err(failure),
            },
        );
    }
}

/// From one peer to the other: whoever opens a connection with a handshake is known
/// on the other side by the host of the connection and the port on which it listens,
/// and is answered with the other peers exactly where it asked for them.
pub proof fn law_peers_are_known_where_they_listen(
    opener: &PeerSharedState,
    own: SocketAddr,
    asks: bool,
    opening: Vec<u8>,
    received: Vec<u8>,
    rest: Seq<u8>,
    addr: SocketAddr,
    tx: Tx,
    state: &mut PeerSharedState,
    outcome: Result<PacketOutcome, SendFailure>,
)
    requires
        call_ensures(PeerSharedState::listener_addr, (opener,), own),
        call_ensures(session::opening_handshake, (opener, asks), opening),
        received@ == opening@.skip(4) + rest,
        call_ensures(session::process_packet, (received, addr, tx, state), outcome),
    ensures
        final(state)@.contains_key(addr),
        final(state)@[addr].listener_addr == at_port(addr, port_of(own)),
        is_answered(
            old(state)@,
            final(state)@,
            addr,
            tx,
            port_of(own),
            asks,
            match outcome {
                Ok(_) => Ok(()),
                Err(failure) => Err(failure),
            },
        ),
{
    let port = port_of(own);
    law_listening_and_opening(port, own, *opener, own, asks, opening);
    assert(received@.subrange(1, 3) =~= wire_laws::digits(port as nat, 2));
    law_handshake_packets_are_processed(received, addr, tx, state, outcome, port);
    let joined = old(state)@.insert(
        addr,
        Peer { listener_addr: at_port(addr, port), sender: tx },
    );
    assert(joined.contains_key(addr));
    assert(final(state)@.dom() == joined.dom());
}

/// A response packet is taken in as `process_handshake_response_packet` takes it.
pub proof fn law_response_packets_are_processed(
    bytes: Vec<u8>,
    addr: SocketAddr,
    tx: Tx,
    state: &mut PeerSharedState,
    outcome: Result<PacketOutcome, SendFailure>,
    list: Seq<SerializableSocketAddr>,
    rest: Seq<u8>,
)
    requires
        list.len() <= u32::MAX,
        bytes@ == seq![1u8] + wire_laws::digits(list.len(), 4) + packet::items_encoded(list) + rest,
    ensures
        call_ensures(session::process_packet, (bytes, addr, tx, state), outcome) ==> {
            &&& final(state)@ == old(state)@.insert(addr, Peer { listener_addr: addr, sender: tx })
            &&& outcome matches Ok(PacketOutcome::Connected(response)) && response.peers@ == list
        },
{
    if call_ensures(session::process_packet, (bytes, addr, tx, state), outcome) {
        let content = wire_laws::digits(list.len(), 4) + packet::items_encoded(list) + rest;
        assert(bytes@[0] == 1);
        assert(bytes@.skip(1) =~= content);
        let response = outcome->Ok_0->Connected_0;
        lemma_response(content, list, rest, response);
    }
}

/// Only a goodbye ends a connection.
pub proof fn law_only_a_goodbye_ends(outcome: PacketOutcome, connected: bool)
    ensures
        call_ensures(PacketOutcome::connected, (&outcome,), connected) ==> (!connected
            <==> outcome == PacketOutcome::Left),
{
}

/// The check of a packet answers whether it is whole and of a known kind, and what
/// passes it can be processed.
pub proof fn law_whole_packets_pass(
    bytes: &Vec<u8>,
    len: u32,
    answer: bool,
    addr: SocketAddr,
    tx: Tx,
    state: &mut PeerSharedState,
)
    requires
        call_ensures(session::is_acceptable, (bytes,), answer),
    ensures
        bytes@.len() == 0 ==> !answer,
        bytes@.len() > 0 && bytes@[0] > 3 ==> !answer,
        bytes@.len() > 0 && bytes@[0] == 0 ==> (answer <==> bytes@.len() >= 4),
        bytes@.len() > 0 && bytes@[0] == 1 ==> (answer <==> HandshakeResponsePacket::readable(
            bytes@.skip(1),
        )),
        0 < bytes@.len() < 5 && bytes@[0] == 2 ==> !answer,
        bytes@.len() >= 5 && bytes@[0] == 2 && bytes@.subrange(1, 5) == wire_laws::digits(
            len as nat,
            4,
        ) ==> (answer <==> bytes@.len() >= 5 + len),
        bytes@.len() > 0 && bytes@[0] == 3 ==> answer,
        answer && old(state).wf() ==> call_requires(
            session::process_packet,
            (*bytes, addr, tx, state),
        ),
{
    if bytes@.len() >= 5 && bytes@.subrange(1, 5) == wire_laws::digits(len as nat, 4) {
        assert(bytes@.skip(1).take(4) =~= bytes@.subrange(1, 5));
        wire_laws::lemma_announced(bytes@.skip(1), len);
    }
}

/// Joining: the user is told of the peer that accepted us and of no other, also
/// where nobody had to be tried.
pub proof fn law_the_accepting_peer_is_told(
    peers: Map<SocketAddr, Peer>,
    list: Seq<SerializableSocketAddr>,
    accepting: SocketAddr,
    event: JoinEvent,
    told: SocketAddr,
)
    ensures
        session::join_step(
            peers,
            list,
            accepting,
            event,
            JoinAction::TellConnected { addr: told },
        ) ==> told == accepting,
{
}

/// The first of the listed peers that is still to be considered after `event`.
pub open spec fn still_to_consider(event: JoinEvent) -> int {
    match event {
        JoinEvent::Responded => 0,
        JoinEvent::Attempted { index, .. } => index + 1,
    }
}

/// Whether the listed peer with index `j` is connected.
pub open spec fn is_connected(
    peers: Map<SocketAddr, Peer>,
    list: Seq<SerializableSocketAddr>,
    j: int,
) -> bool {
    peers.contains_key(list[j].sock_addr())
}

/// Joining tries the first listed peer that is still to be considered and is not
/// connected, at its own address and without asking it for peers. Where there is
/// none, it tells of the peer that accepted us. What came of earlier attempts does
/// not change that.
pub proof fn law_joining_step(
    state: &PeerSharedState,
    response: &HandshakeResponsePacket,
    accepting: SocketAddr,
    event: JoinEvent,
    action: JoinAction,
    j: int,
)
    requires
        call_ensures(session::resume_join, (state, response, accepting, event), action),
        still_to_consider(event) <= j < response.peers@.len(),
    ensures
        match action {
            JoinAction::Connect { index, addr, request_peers } => {
                &&& still_to_consider(event) <= index < response.peers@.len()
                &&& wire_laws::stands_for(response.peers@[index as int], addr)
                &&& addr == response.peers@[index as int].sock_addr()
                &&& !is_connected(state@, response.peers@, index as int)
                &&& j < index ==> is_connected(state@, response.peers@, j)
                &&& !request_peers
            },
            JoinAction::TellConnected { addr } => {
                &&& addr == accepting
                &&& is_connected(state@, response.peers@, j)
            },
        },
{
    assert(response.peers@[j] == response.peers@[j]);
}

/// Where no listed peer is left to consider, joining tells of the peer that accepted
/// us.
pub proof fn law_joining_ends(
    state: &PeerSharedState,
    response: &HandshakeResponsePacket,
    accepting: SocketAddr,
    event: JoinEvent,
    action: JoinAction,
)
    requires
        call_ensures(session::resume_join, (state, response, accepting, event), action),
        still_to_consider(event) >= response.peers@.len(),
    ensures
        action == (JoinAction::TellConnected { addr: accepting }),
{
}

/// The search for the next peer to connect to finds the first one that is not
/// connected, if there is one.
pub proof fn law_next_connection(
    state: &PeerSharedState,
    list: &Vec<SerializableSocketAddr>,
    start: usize,
    found: Option<usize>,
    j: int,
)
    requires
        call_ensures(PeerSharedState::next_connection, (state, list, start), found),
    ensures
        found matches Some(i) ==> {
            &&& start <= i < list@.len()
            &&& !is_connected(state@, list@, i as int)
            &&& start <= j < i ==> is_connected(state@, list@, j)
        },
        found is None ==> (start <= j < list@.len() ==> is_connected(state@, list@, j)),
{
    if start <= j < list@.len() {
        assert(list@[j] == list@[j]);
    }
}

/// The list of addresses for a newcomer names the others.
pub proof fn law_lists_name_the_others(
    state: &PeerSharedState,
    own: SocketAddr,
    list: Vec<SerializableSocketAddr>,
)
    ensures
        call_ensures(PeerSharedState::peer_addresses, (state, own), list) ==> names_the_others(
            list@,
            state@,
            own,
        ),
{
    if call_ensures(PeerSharedState::peer_addresses, (state, own), list) {
        lemma_names_the_others(list@, state@, own);
    }
}

/// What a peer tells of the peers that it knows agrees: who is found is among those
/// that it hands out, and they are as many as it counts, each under one address.
pub proof fn law_the_table_agrees(
    state: &PeerSharedState,
    addr: SocketAddr,
    found: bool,
    count: usize,
    peers: Vec<(&SocketAddr, &Peer)>,
    i: int,
    j: int,
)
    requires
        call_ensures(PeerSharedState::contains_peer, (state, addr), found),
        call_ensures(PeerSharedState::get_peer_count, (state,), count),
        call_ensures(PeerSharedState::get_peers, (state,), peers),
    ensures
        count == peers@.len(),
        found <==> exists|k: int| 0 <= k < peers@.len() && *(#[trigger] peers@[k]).0 == addr,
        0 <= i < j < peers@.len() ==> *peers@[i].0 != *peers@[j].0,
        0 <= i < peers@.len() ==> state@.contains_key(*peers@[i].0) && state@[*peers@[i].0]
            == *peers@[i].1,
        found <==> state@.contains_key(addr),
{
    let order = peers@.map_values(|entry: (&SocketAddr, &Peer)| *entry.0);
    assert(order.contains(addr) <==> state@.dom().contains(addr));
    if order.contains(addr) {
        let k = choose|k: int| 0 <= k < order.len() && order[k] == addr;
        assert(*peers@[k].0 == addr);
    }
    if exists|k: int| 0 <= k < peers@.len() && *(#[trigger] peers@[k]).0 == addr {
        let k = choose|k: int| 0 <= k < peers@.len() && *(#[trigger] peers@[k]).0 == addr;
        assert(order[k] == addr);
    }
    if 0 <= i < j < peers@.len() {
        assert(order[i] == *peers@[i].0);
        assert(order[j] == *peers@[j].0);
    }
    if 0 <= i < peers@.len() {
        assert(state@.contains_pair(*peers@[i].0, *peers@[i].1));
    }
}

/// Nobody is known at first.
pub proof fn law_nobody_is_known_at_first(
    own: SocketAddr,
    state: PeerSharedState,
    addr: SocketAddr,
    found: bool,
    count: usize,
)
    requires
        call_ensures(PeerSharedState::new, (own,), state),
    ensures
        call_ensures(PeerSharedState::contains_peer, (&state, addr), found) ==> !found,
        call_ensures(PeerSharedState::get_peer_count, (&state,), count) ==> count == 0,
{
}

/// Whoever is added is known from then on, whoever is removed is not, everyone else
/// is as before, and the result tells whether this was news. The peer keeps its own
/// listening address.
pub proof fn law_adding_and_removing(
    state: &mut PeerSharedState,
    addr: SocketAddr,
    peer: Peer,
    news: bool,
    other: SocketAddr,
    before: (bool, bool),
    after: (bool, bool),
    own_before: SocketAddr,
    own_after: SocketAddr,
)
    requires
        other != addr,
        call_ensures(PeerSharedState::contains_peer, (old(state), addr), before.0),
        call_ensures(PeerSharedState::contains_peer, (old(state), other), before.1),
        call_ensures(PeerSharedState::listener_addr, (old(state),), own_before),
        call_ensures(PeerSharedState::contains_peer, (final(state), addr), after.0),
        call_ensures(PeerSharedState::contains_peer, (final(state), other), after.1),
        call_ensures(PeerSharedState::listener_addr, (final(state),), own_after),
    ensures
        call_ensures(PeerSharedState::add_peer, (state, addr, peer), news) ==> {
            &&& after.0
            &&& final(state)@[addr] == peer
            &&& news == !before.0
            &&& after.1 == before.1
            &&& after.1 ==> final(state)@[other] == old(state)@[other]
            &&& own_after == own_before
        },
        call_ensures(PeerSharedState::remove_peer, (state, addr), news) ==> {
            &&& !after.0
            &&& news == before.0
            &&& after.1 == before.1
            &&& after.1 ==> final(state)@[other] == old(state)@[other]
            &&& own_after == own_before
        },
{
}

/// How much is read at a time, and how long a connection may take: the limits of the
/// library.
pub proof fn law_limits()
    ensures
        peer::TCP_STREAM_READ_BUFFER_SIZE == 256,
        peer::TCP_STREAM_CONNECTION_TIMEOUT_SECS == 15,
        peer::TCP_STREAM_READ_TIMEOUT_SECS == 5,
{
}

/// Whatever a peer does with a packet or a message, it keeps its own listening
/// address, and stays fit for whatever it does next.
pub proof fn law_own_address_is_kept<T: PacketHeader<BantamPacketType> + Serializable>(
    state: &mut PeerSharedState,
    stream: BinaryStream,
    bytes: Vec<u8>,
    packet: T,
    addr: SocketAddr,
    tx: Tx,
    reply: Vec<u8>,
    response: HandshakeResponsePacket,
    outcome: Result<PacketOutcome, SendFailure>,
    result: Result<(), SendFailure>,
    own_before: SocketAddr,
    own_after: SocketAddr,
)
    requires
        call_ensures(PeerSharedState::listener_addr, (old(state),), own_before),
        call_ensures(PeerSharedState::listener_addr, (final(state),), own_after),
        (call_ensures(session::introduce_peer, (stream, addr, tx, state), reply)
            || call_ensures(session::process_handshake_packet, (stream, addr, tx, state), result)
            || call_ensures(
                session::process_handshake_response_packet,
                (stream, addr, tx, state),
                response,
            )
            || call_ensures(session::process_packet, (bytes, addr, tx, state), outcome)
            || call_ensures(PeerSharedState::broadcast, (state, bytes), result)
            || call_ensures(PeerSharedState::unicast, (state, bytes, addr), result)
            || call_ensures(session::send_packet, (bytes, state), result)
            || call_ensures(session::send_packet_to, (bytes, addr, state), result)
            || call_ensures(session::send_bantam_packet::<T>, (packet, state), result)
            || call_ensures(session::send_bantam_packet_to::<T>, (packet, addr, state), result)
            || call_ensures(session::send_data_packet, (bytes, state), result)
            || call_ensures(session::send_data_packet_to, (bytes, addr, state), result)
            || call_ensures(session::shutdown, (state,), result)),
    ensures
        own_after == own_before,
        final(state).wf(),
{
}

/// A peer that is fit can do all that needs no packet, with any argument.
pub proof fn law_a_fit_peer_can_always_act(
    state: &mut PeerSharedState,
    bytes: Vec<u8>,
    addr: SocketAddr,
    peer: Peer,
    list: &Vec<SerializableSocketAddr>,
    start: usize,
    response: &HandshakeResponsePacket,
)
    requires
        old(state).wf(),
    ensures
        call_requires(PeerSharedState::add_peer, (state, addr, peer)),
        call_requires(PeerSharedState::remove_peer, (state, addr)),
        call_requires(PeerSharedState::contains_peer, (old(state), addr)),
        call_requires(PeerSharedState::get_peers, (old(state),)),
        call_requires(PeerSharedState::get_peer_count, (old(state),)),
        call_requires(PeerSharedState::peer_addresses, (old(state), addr)),
        call_requires(PeerSharedState::next_connection, (old(state), list, start)),
        call_requires(PeerSharedState::broadcast, (state, bytes)),
        call_requires(PeerSharedState::unicast, (state, bytes, addr)),
        call_requires(session::send_packet, (bytes, state)),
        call_requires(session::send_packet_to, (bytes, addr, state)),
        call_requires(session::send_data_packet, (bytes, state)),
        call_requires(session::send_data_packet_to, (bytes, addr, state)),
        call_requires(session::shutdown, (state,)),
        call_requires(
            session::resume_join,
            (old(state), response, addr, JoinEvent::Responded),
        ),
{
}

/// A handshake or a response can be processed wherever it stands whole.
pub proof fn law_whole_handshakes_can_be_processed(
    stream: BinaryStream,
    addr: SocketAddr,
    tx: Tx,
    state: &mut PeerSharedState,
)
    requires
        old(state).wf(),
        stream.mode == BinaryStreamMode::Read,
    ensures
        stream.buffer@.len() >= 3 ==> call_requires(
            session::introduce_peer,
            (stream, addr, tx, state),
        ) && call_requires(session::process_handshake_packet, (stream, addr, tx, state)),
        HandshakeResponsePacket::readable(stream.buffer@) ==> call_requires(
            session::process_handshake_response_packet,
            (stream, addr, tx, state),
        ),
{
}

} // verus!
