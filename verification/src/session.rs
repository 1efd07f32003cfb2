//! What a peer does with what happens on its connections: how it opens them, how
//! it answers packets, and when it closes them.

use vstd::prelude::*;

use crate::binary_stream;
use crate::binary_stream::{announced_at, BinaryStream};
use crate::endian;
use crate::framing;
use crate::framing::{construct_bantam_packet, deconstruct_bantam_packet};
use crate::net::{Ipv4Addr, SocketAddr, SocketAddrV4};
use crate::packet;
use crate::packet::{
    BantamPacketType, ByePacket, DataPacket, HandshakePacket, HandshakeRequestPacket,
    HandshakeResponsePacket, PacketHeader, PacketType, Serializable,
};
use crate::peer;
use crate::peer::{BantamError, Peer, PeerSharedState, SendFailure, Tx};
use crate::util::SerializableSocketAddr;

verus! {

/// The address on which a peer listens for connections to `port`: every local
/// IPv4 address.
pub fn listening_addr(port: u16) -> (addr: SocketAddr)
    ensures
        addr == SocketAddr::V4(SocketAddrV4 { ip: Ipv4Addr(0, 0, 0, 0), port }),
{
    SocketAddr::V4(SocketAddrV4 { ip: Ipv4Addr::new(0, 0, 0, 0), port })
}

/// The handshake by which the peer with the given state opens a connection: it
/// tells the port on which it listens, and whether it asks for the list of
/// peers.
pub fn opening_handshake(state: &PeerSharedState, request_peers: bool) -> (bytes: Vec<u8>)
    ensures
        bytes@ == framing::packet_bytes(
            BantamPacketType::Handshake,
            (HandshakeRequestPacket {
                handshake: HandshakePacket { listening_port: state.listener().port_spec() },
                request_peers,
            }).encoded(),
        ),
{
    construct_bantam_packet(HandshakeRequestPacket::new(state.listener_addr().port(), request_peers))
}

/// What came of an attempt to connect.
#[derive(Debug, Clone, Copy, PartialEq, Eq, Structural)]
pub enum ConnectEvent {
    Connected,
    Refused,
    TimedOut,
}

/// How an attempt to connect goes on.
#[derive(Debug, Clone, Copy, PartialEq, Eq, Structural)]
pub enum ConnectAction {
    /// The opening handshake is sent, and the connection is served.
    SendHandshake,
    /// The error of the attempt is returned.
    ReturnError,
    /// This error is returned.
    Fail(BantamError),
}

/// What setting up a connection to another peer does with the attempt.
pub fn setup_outgoing_peer(event: ConnectEvent) -> (action: ConnectAction)
    ensures
        action == match event {
            ConnectEvent::Connected => ConnectAction::SendHandshake,
            ConnectEvent::Refused => ConnectAction::ReturnError,
            ConnectEvent::TimedOut => ConnectAction::Fail(BantamError::ConnectionTimeout),
        },
{
    match event {
        ConnectEvent::Connected => ConnectAction::SendHandshake,
        ConnectEvent::Refused => ConnectAction::ReturnError,
        ConnectEvent::TimedOut => ConnectAction::Fail(BantamError::ConnectionTimeout),
    }
}

/// What happens on a connection that is served.
pub enum IoEvent {
    /// Another task has a message for the peer.
    MessageQueued(Vec<u8>),
    /// The message has been written, or it could not be.
    MessageWritten(bool),
    /// A packet has been read: its announced size, or nothing where reading its
    /// segments failed.
    SegmentsRead(Option<usize>),
    /// The packet has been processed: whether the peer stays, or nothing where
    /// processing failed.
    PacketProcessed(Option<bool>),
    /// Reading from the connection failed: whether the peer reset it.
    ReadFailed { connection_reset: bool },
    /// The user of the network has been told that the peer is disconnected.
    DisconnectTold,
    /// The peer has been taken from the connected peers.
    PeerRemoved,
}

/// What is done about it.
pub enum IoAction {
    /// Write the message to the connection.
    Write(Vec<u8>),
    /// Process the packet.
    Process,
    /// Wait for what happens next.
    Wait,
    /// Tell the user of the network that the peer is disconnected.
    Disconnect { report_error: bool },
    /// Take the peer from the connected peers.
    RemovePeer,
    /// Serving the connection is over, without an error.
    Finish,
    /// Give the connection up with the error of the write.
    Abort,
}

/// What is done about `event`.
pub open spec fn io_action(event: IoEvent) -> IoAction {
    match event {
        IoEvent::MessageQueued(message) => IoAction::Write(message),
        IoEvent::MessageWritten(written) => if written {
            IoAction::Wait
        } else {
            IoAction::Abort
        },
        IoEvent::SegmentsRead(None) => IoAction::Disconnect { report_error: true },
        IoEvent::SegmentsRead(Some(size)) => if size == 0 {
            IoAction::Disconnect { report_error: false }
        } else {
            IoAction::Process
        },
        IoEvent::PacketProcessed(None) => IoAction::Disconnect { report_error: true },
        IoEvent::PacketProcessed(Some(connected)) => if connected {
            IoAction::Wait
        } else {
            IoAction::Disconnect { report_error: false }
        },
        IoEvent::ReadFailed { connection_reset } => IoAction::Disconnect {
            report_error: !connection_reset,
        },
        IoEvent::DisconnectTold => IoAction::RemovePeer,
        IoEvent::PeerRemoved => IoAction::Finish,
    }
}

/// Whether `event` can be what happens next once `action` is done.
pub open spec fn follows(action: IoAction, event: IoEvent) -> bool {
    match action {
        IoAction::Write(_) => event is MessageWritten,
        IoAction::Process => event is PacketProcessed,
        IoAction::Wait => event is MessageQueued || event is SegmentsRead || event is ReadFailed,
        IoAction::Disconnect { .. } => event is DisconnectTold,
        IoAction::RemovePeer => event is PeerRemoved,
        IoAction::Finish | IoAction::Abort => false,
    }
}

/// Whether `events` are what happens on a connection from its beginning, each
/// answered as `io_action` says.
pub open spec fn served(events: Seq<IoEvent>) -> bool {
    &&& events.len() > 0
    &&& follows(IoAction::Wait, events[0])
    &&& forall|i: int|
        0 < i < events.len() ==> follows(io_action(events[i - 1]), #[trigger] events[i])
}

/// One round of serving a connection.
pub fn handle_peer_io_loop(event: IoEvent) -> (action: IoAction)
    ensures
        action == io_action(event),
{
    match event {
        IoEvent::MessageQueued(message) => IoAction::Write(message),
        IoEvent::MessageWritten(written) => {
            if written {
                IoAction::Wait
            } else {
                IoAction::Abort
            }
        },
        IoEvent::SegmentsRead(total_bytes_received) => match total_bytes_received {
            None => IoAction::Disconnect { report_error: true },
            Some(0) => IoAction::Disconnect { report_error: false },
            Some(_) => IoAction::Process,
        },
        IoEvent::PacketProcessed(connected) => match connected {
            None => IoAction::Disconnect { report_error: true },
            Some(false) => IoAction::Disconnect { report_error: false },
            Some(true) => IoAction::Wait,
        },
        IoEvent::ReadFailed { connection_reset } => IoAction::Disconnect {
            report_error: !connection_reset,
        },
        IoEvent::DisconnectTold => IoAction::RemovePeer,
        IoEvent::PeerRemoved => IoAction::Finish,
    }
}

/// Whether `bytes` are a packet, without its size, that a peer can process.
pub open spec fn acceptable(bytes: Seq<u8>) -> bool {
    &&& bytes.len() > 0
    &&& match BantamPacketType::type_of(bytes[0]) {
        Some(BantamPacketType::Handshake) => HandshakeRequestPacket::readable(bytes.skip(1)),
        Some(BantamPacketType::HandshakeResponse) => HandshakeResponsePacket::readable(
            bytes.skip(1),
        ),
        Some(BantamPacketType::Data) => DataPacket::readable(bytes.skip(1)),
        Some(BantamPacketType::Bye) => true,
        None => false,
    }
}

/// What came of a packet.
pub enum PacketOutcome {
    /// A peer introduced itself, and the reply to it is queued.
    Introduced,
    /// A peer accepted us, and tells of these peers.
    Connected(HandshakeResponsePacket),
    /// A peer sent these bytes.
    Received(Vec<u8>),
    /// A peer left.
    Left,
}

impl PacketOutcome {
    /// Whether the peer stays connected.
    pub fn connected(&self) -> (connected: bool)
        ensures
            connected == !(self is Left),
    {
        match self {
            PacketOutcome::Left => false,
            _ => true,
        }
    }
}

/// Whether `reply` answers `request`, once the sender is among `peers`: it lists
/// the other peers if they were asked for, and nobody else.
pub open spec fn answers(
    reply: Seq<u8>,
    request: HandshakeRequestPacket,
    listener_addr: SocketAddr,
    peers: Map<SocketAddr, Peer>,
) -> bool {
    exists|list: Seq<SerializableSocketAddr>| #[trigger]
        answers_with(reply, request, listener_addr, peers, list)
}

/// Whether `reply` answers `request` with `list`.
pub open spec fn answers_with(
    reply: Seq<u8>,
    request: HandshakeRequestPacket,
    listener_addr: SocketAddr,
    peers: Map<SocketAddr, Peer>,
    list: Seq<SerializableSocketAddr>,
) -> bool {
    &&& reply == framing::packet_bytes(
        BantamPacketType::HandshakeResponse,
        packet::response_encoded(list),
    )
    &&& if request.request_peers {
        peer::lists_others(peers, listener_addr, list)
    } else {
        list.len() == 0
    }
}

/// The peer that introduces itself with `request` on the connection to `addr`.
pub open spec fn introduced(addr: SocketAddr, request: HandshakeRequestPacket, tx: Tx) -> Peer {
    Peer { listener_addr: addr.with_port(request.handshake.listening_port), sender: tx }
}

/// The handshake request at the front of `bytes`.
pub open spec fn request_of(bytes: Seq<u8>) -> HandshakeRequestPacket {
    HandshakeRequestPacket {
        handshake: HandshakePacket { listening_port: endian::le_value(bytes.take(2)) as u16 },
        request_peers: bytes[2] == 1,
    }
}

/// Adds the peer that introduces itself, and gives the reply that is due to it.
/// Its listening address is that of its connection with the port that it tells,
/// so that others can connect to it.
pub fn introduce_peer(
    stream: BinaryStream,
    addr: SocketAddr,
    tx: Tx,
    state: &mut PeerSharedState,
) -> (reply: Vec<u8>)
    requires
        old(state).wf(),
        stream.mode is Read,
        HandshakeRequestPacket::readable(stream@),
    ensures
        final(state).wf(),
        final(state).listener() == old(state).listener(),
        final(state)@ == old(state)@.insert(addr, introduced(addr, request_of(stream@), tx)),
        answers(
            reply@,
            request_of(stream@),
            introduced(addr, request_of(stream@), tx).listener_addr,
            final(state)@,
        ),
{
    let mut stream = stream;
    let ghost bytes = stream@;
    let handshake = HandshakeRequestPacket::from_stream(&mut stream);
    assert(handshake == request_of(bytes));

    let mut listener_addr = addr;
    listener_addr.set_port(handshake.handshake.listening_port);
    let _ = state.add_peer(addr, Peer { listener_addr, sender: tx });

    // Who does not ask for the list already has it from another peer.
    let peer_addresses = if handshake.request_peers {
        state.peer_addresses(listener_addr)
    } else {
        Vec::new()
    };
    let ghost list = peer_addresses@;
    let reply = construct_bantam_packet(HandshakeResponsePacket::new(peer_addresses));
    assert(answers_with(reply@, handshake, listener_addr, state@, list));
    reply
}

/// Whether `result` reports the sending of an answer to `request`, which came on
/// the connection to `addr`: `before` are the peers with its sender among them, and
/// `after` the peers once the answer is sent.
pub open spec fn answer_report(
    before: Map<SocketAddr, Peer>,
    after: Map<SocketAddr, Peer>,
    request: HandshakeRequestPacket,
    addr: SocketAddr,
    result: Result<(), SendFailure>,
) -> bool {
    exists|reply: Seq<u8>|
        {
            &&& #[trigger] answers(reply, request, before[addr].listener_addr, before)
            &&& peer::unicast_report(before, after, reply, addr, result)
        }
}

/// Adds the peer that introduces itself, and queues the reply that is due to it.
pub fn process_handshake_packet(
    stream: BinaryStream,
    addr: SocketAddr,
    tx: Tx,
    state: &mut PeerSharedState,
) -> (result: Result<(), SendFailure>)
    requires
        old(state).wf(),
        stream.mode is Read,
        HandshakeRequestPacket::readable(stream@),
    ensures
        final(state).wf(),
        final(state).listener() == old(state).listener(),
        answer_report(
            old(state)@.insert(addr, introduced(addr, request_of(stream@), tx)),
            final(state)@,
            request_of(stream@),
            addr,
            result,
        ),
{
    let ghost request = request_of(stream@);
    let reply = introduce_peer(stream, addr, tx, state);
    let ghost reply_bytes = reply@;
    let ghost before = state@;
    let result = send_packet_to(reply, addr, state);
    assert(answers(reply_bytes, request, before[addr].listener_addr, before));
    result
}

/// Adds the peer that accepted us, and gives its response.
pub fn process_handshake_response_packet(
    stream: BinaryStream,
    addr: SocketAddr,
    tx: Tx,
    state: &mut PeerSharedState,
) -> (response: HandshakeResponsePacket)
    requires
        old(state).wf(),
        stream.mode is Read,
        HandshakeResponsePacket::readable(stream@),
    ensures
        final(state).wf(),
        final(state).listener() == old(state).listener(),
        final(state)@ == old(state)@.insert(addr, Peer { listener_addr: addr, sender: tx }),
        response.read_from(stream@),
{
    let mut stream = stream;
    let _ = state.add_peer(addr, Peer { listener_addr: addr, sender: tx });
    HandshakeResponsePacket::from_stream(&mut stream)
}

/// What happens while a peer joins a network.
#[derive(Debug, Clone, Copy, PartialEq, Eq, Structural)]
pub enum JoinEvent {
    /// A peer accepted us, and its response lists the others.
    Responded,
    /// A connection to the listed peer with this index has been tried.
    Attempted { index: usize, connected: bool },
}

/// What is done about it.
#[derive(Debug, Clone, Copy, PartialEq, Eq, Structural)]
pub enum JoinAction {
    /// Try to connect to `addr`, which the listed peer with this index has.
    Connect { index: usize, addr: SocketAddr, request_peers: bool },
    /// Tell the user of the network that the peer that accepted us is connected.
    TellConnected { addr: SocketAddr },
}

/// The index of the first listed peer whose turn comes after `event`.
pub open spec fn join_start(event: JoinEvent) -> int {
    match event {
        JoinEvent::Responded => 0,
        JoinEvent::Attempted { index, .. } => index + 1,
    }
}

/// Whether `action` is what is done about `event` by a peer that is connected to
/// `peers`, and was accepted on the connection to `accepting`, with `list`: the next
/// listed peer that is not connected is tried, without asking it for peers, and
/// after the last the user is told.
pub open spec fn join_step(
    peers: Map<SocketAddr, Peer>,
    list: Seq<SerializableSocketAddr>,
    accepting: SocketAddr,
    event: JoinEvent,
    action: JoinAction,
) -> bool {
    match action {
        JoinAction::Connect { index, addr, request_peers } => {
            &&& join_start(event) <= index < list.len()
            &&& addr == list[index as int].sock_addr()
            &&& !peers.contains_key(addr)
            &&& !request_peers
            &&& forall|j: int|
                join_start(event) <= j < index ==> peers.contains_key(
                    (#[trigger] list[j]).sock_addr(),
                )
        },
        JoinAction::TellConnected { addr } => {
            &&& addr == accepting
            &&& forall|j: int|
                join_start(event) <= j < list.len() ==> peers.contains_key(
                    (#[trigger] list[j]).sock_addr(),
                )
        },
    }
}

/// Whether `event` can be what happens next once `action` is done.
pub open spec fn join_follows(action: JoinAction, event: JoinEvent) -> bool {
    match action {
        JoinAction::Connect { index: tried, .. } => event matches JoinEvent::Attempted {
            index,
            ..
        } && index == tried,
        JoinAction::TellConnected { .. } => false,
    }
}

/// Whether `events` are what happens from the response with `list` on, and
/// `actions` what is done about each, while the connected peers are those of
/// `peers` at each step.
pub open spec fn joining(
    list: Seq<SerializableSocketAddr>,
    accepting: SocketAddr,
    peers: Seq<Map<SocketAddr, Peer>>,
    events: Seq<JoinEvent>,
    actions: Seq<JoinAction>,
) -> bool {
    &&& events.len() > 0
    &&& peers.len() == events.len()
    &&& actions.len() == events.len()
    &&& events[0] is Responded
    &&& forall|i: int|
        0 <= i < events.len() ==> join_step(
            peers[i],
            list,
            accepting,
            events[i],
            #[trigger] actions[i],
        )
    &&& forall|i: int| 0 < i < events.len() ==> join_follows(actions[i - 1], #[trigger] events[i])
}

/// One step of joining the network of the peer that accepted us on the connection
/// to `accepting` with `response`. What came of earlier attempts does not matter.
pub fn resume_join(
    state: &PeerSharedState,
    response: &HandshakeResponsePacket,
    accepting: SocketAddr,
    event: JoinEvent,
) -> (action: JoinAction)
    requires
        state.wf(),
        join_start(event) <= response.peers@.len(),
    ensures
        join_step(state@, response.peers@, accepting, event, action),
{
    let count: usize = response.peers.len();
    assert(join_start(event) <= count);
    let start: usize = match event {
        JoinEvent::Responded => 0,
        JoinEvent::Attempted { index, .. } => index + 1,
    };
    match state.next_connection(&response.peers, start) {
        Some(index) => JoinAction::Connect {
            index,
            addr: response.peers[index].to_sock_addr(),
            request_peers: false,
        },
        None => JoinAction::TellConnected { addr: accepting },
    }
}

/// Processes a packet, without its size, that came on the connection to `addr`.
/// Fails only where the reply to a handshake cannot be queued.
pub fn process_packet(
    bytes: Vec<u8>,
    addr: SocketAddr,
    tx: Tx,
    state: &mut PeerSharedState,
) -> (outcome: Result<PacketOutcome, SendFailure>)
    requires
        old(state).wf(),
        acceptable(bytes@),
    ensures
        final(state).wf(),
        final(state).listener() == old(state).listener(),
        ({
            let content = bytes@.skip(1);
            match BantamPacketType::type_of(bytes@[0]) {
                Some(BantamPacketType::Handshake) => {
                    &&& outcome matches Ok(done) ==> done is Introduced
                    &&& answer_report(
                        old(state)@.insert(addr, introduced(addr, request_of(content), tx)),
                        final(state)@,
                        request_of(content),
                        addr,
                        match outcome {
                            Ok(_) => Ok(()),
                            Err(failure) => Err(failure),
                        },
                    )
                },
                Some(BantamPacketType::HandshakeResponse) => {
                    &&& final(state)@ == old(state)@.insert(
                        addr,
                        Peer { listener_addr: addr, sender: tx },
                    )
                    &&& outcome matches Ok(PacketOutcome::Connected(response))
                        && response.read_from(content)
                },
                Some(BantamPacketType::Data) => {
                    &&& final(state)@ == old(state)@
                    &&& outcome matches Ok(PacketOutcome::Received(data)) && data@
                        == binary_stream::counted_content(content)
                },
                _ => {
                    &&& final(state)@ == old(state)@
                    &&& outcome == Ok::<_, SendFailure>(PacketOutcome::Left)
                },
            }
        }),
{
    let (packet_type, stream) = deconstruct_bantam_packet(bytes);
    match packet_type {
        BantamPacketType::Handshake => match process_handshake_packet(stream, addr, tx, state) {
            Ok(()) => Ok(PacketOutcome::Introduced),
            Err(failure) => Err(failure),
        },
        BantamPacketType::HandshakeResponse => Ok(
            PacketOutcome::Connected(process_handshake_response_packet(stream, addr, tx, state)),
        ),
        BantamPacketType::Data => {
            let mut stream = stream;
            let data_packet = DataPacket::from_stream(&mut stream);
            Ok(PacketOutcome::Received(data_packet.bytes))
        },
        BantamPacketType::Bye => Ok(PacketOutcome::Left),
    }
}

/// Whether `bytes` are a packet, without its size, that `process_packet` takes.
pub fn is_acceptable(bytes: &Vec<u8>) -> (accepted: bool)
    ensures
        accepted == acceptable(bytes@),
{
    if bytes.len() == 0 {
        return false;
    }
    match BantamPacketType::from_byte(bytes[0]) {
        None => false,
        Some(BantamPacketType::Handshake) => bytes.len() >= 4,
        Some(BantamPacketType::HandshakeResponse) => HandshakeResponsePacket::can_read(bytes, 1),
        Some(BantamPacketType::Data) => {
            if bytes.len() < 5 {
                false
            } else {
                bytes.len() - 5 >= announced_at(bytes, 1)
            }
        },
        Some(BantamPacketType::Bye) => true,
    }
}

/// Queues `bytes` for every peer.
pub fn send_packet(bytes: Vec<u8>, state: &mut PeerSharedState) -> (result: Result<(), SendFailure>)
    requires
        old(state).wf(),
    ensures
        final(state).wf(),
        final(state).listener() == old(state).listener(),
        peer::broadcast_report(old(state)@, final(state)@, bytes@, result),
{
    state.broadcast(bytes)
}

/// Queues `bytes` for the peer under `addr`.
pub fn send_packet_to(bytes: Vec<u8>, addr: SocketAddr, state: &mut PeerSharedState) -> (result: Result<
    (),
    SendFailure,
>)
    requires
        old(state).wf(),
    ensures
        final(state).wf(),
        final(state).listener() == old(state).listener(),
        peer::unicast_report(old(state)@, final(state)@, bytes@, addr, result),
{
    state.unicast(bytes, addr)
}

/// Queues `packet` for every peer.
pub fn send_bantam_packet<T: PacketHeader<BantamPacketType> + Serializable>(
    packet: T,
    state: &mut PeerSharedState,
) -> (result: Result<(), SendFailure>)
    requires
        old(state).wf(),
    ensures
        final(state).wf(),
        final(state).listener() == old(state).listener(),
        peer::broadcast_report(
            old(state)@,
            final(state)@,
            framing::packet_bytes(packet.kind(), packet.encoded()),
            result,
        ),
{
    send_packet(construct_bantam_packet(packet), state)
}

/// Queues `packet` for the peer under `addr`.
pub fn send_bantam_packet_to<T: PacketHeader<BantamPacketType> + Serializable>(
    packet: T,
    addr: SocketAddr,
    state: &mut PeerSharedState,
) -> (result: Result<(), SendFailure>)
    requires
        old(state).wf(),
    ensures
        final(state).wf(),
        final(state).listener() == old(state).listener(),
        peer::unicast_report(
            old(state)@,
            final(state)@,
            framing::packet_bytes(packet.kind(), packet.encoded()),
            addr,
            result,
        ),
{
    send_packet_to(construct_bantam_packet(packet), addr, state)
}

/// Queues `bytes`, as a data packet, for every peer.
pub fn send_data_packet(bytes: Vec<u8>, state: &mut PeerSharedState) -> (result: Result<
    (),
    SendFailure,
>)
    requires
        old(state).wf(),
    ensures
        final(state).wf(),
        final(state).listener() == old(state).listener(),
        peer::broadcast_report(
            old(state)@,
            final(state)@,
            framing::packet_bytes(BantamPacketType::Data, binary_stream::counted(bytes@)),
            result,
        ),
{
    send_packet(construct_bantam_packet(DataPacket::new(bytes)), state)
}

/// Queues `bytes`, as a data packet, for the peer under `addr`.
pub fn send_data_packet_to(bytes: Vec<u8>, addr: SocketAddr, state: &mut PeerSharedState) -> (result:
    Result<(), SendFailure>)
    requires
        old(state).wf(),
    ensures
        final(state).wf(),
        final(state).listener() == old(state).listener(),
        peer::unicast_report(
            old(state)@,
            final(state)@,
            framing::packet_bytes(BantamPacketType::Data, binary_stream::counted(bytes@)),
            addr,
            result,
        ),
{
    send_packet_to(construct_bantam_packet(DataPacket::new(bytes)), addr, state)
}

/// Says goodbye to every peer.
pub fn shutdown(state: &mut PeerSharedState) -> (result: Result<(), SendFailure>)
    requires
        old(state).wf(),
    ensures
        final(state).wf(),
        final(state).listener() == old(state).listener(),
        peer::broadcast_report(
            old(state)@,
            final(state)@,
            framing::packet_bytes(BantamPacketType::Bye, seq![0u8]),
            result,
        ),
{
    send_bantam_packet(ByePacket::new(0), state)
}

} // verus!
