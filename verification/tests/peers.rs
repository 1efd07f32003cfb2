use bantam::{
    check_first_packet_segment, construct_bantam_packet, deconstruct_bantam_packet,
    handle_peer_io_loop, introduce_peer, is_acceptable, listening_addr, opening_handshake,
    process_handshake_packet, process_packet, read_segments, resume_join, resume_segments, send_bantam_packet_to, send_data_packet, send_data_packet_to,
    send_packet_to, setup_outgoing_peer, shutdown, BantamError, BantamPacketType, ByePacket,
    ConnectAction, ConnectEvent, DataPacket, HandshakeRequestPacket, HandshakeResponsePacket,
    IoAction, IoEvent, IpAddr, Ipv4Addr, JoinAction, JoinEvent, PacketOutcome, Peer, PeerSharedState, SegmentEvent,
    SegmentProgress, SegmentState, Serializable, SerializableSocketAddr, SocketAddr, SocketAddrV4,
};
use tokio::sync::mpsc::{unbounded_channel, UnboundedReceiver};

fn addr(host: u8, port: u16) -> SocketAddr {
    SocketAddr::V4(SocketAddrV4 { ip: Ipv4Addr::new(10, 0, 0, host), port })
}

fn listed(host: u8, port: u16) -> SerializableSocketAddr {
    SerializableSocketAddr::new(IpAddr::V4(Ipv4Addr::new(10, 0, 0, host)), port)
}

fn join(state: &mut PeerSharedState, host: u8) -> UnboundedReceiver<Vec<u8>> {
    let (sender, receiver) = unbounded_channel();
    assert!(state.add_peer(addr(host, 5000), Peer { listener_addr: addr(host, 8000), sender }));
    receiver
}

#[test]
fn packets_are_framed() {
    assert_eq!(construct_bantam_packet(ByePacket::new(0)), vec![2, 0, 0, 0, 3, 0]);
    assert_eq!(
        construct_bantam_packet(DataPacket::new(vec![9, 8])),
        vec![7, 0, 0, 0, 2, 2, 0, 0, 0, 9, 8]
    );
    let (kind, mut stream) = deconstruct_bantam_packet(vec![2, 2, 0, 0, 0, 9, 8]);
    assert_eq!(kind, BantamPacketType::Data);
    assert_eq!(DataPacket::from_stream(&mut stream).bytes, vec![9, 8]);
}

#[test]
fn the_size_leaves_the_first_segment() {
    let mut buffer = vec![1, 2, 0, 0, 42];
    assert_eq!(check_first_packet_segment(&mut buffer), 513);
    assert_eq!(buffer, vec![42]);
}

#[test]
fn short_segments_hold_no_packet() {
    let mut longer = vec![3, 0, 0, 0, 7, 8, 9];
    assert_eq!(read_segments(7, &mut longer), SegmentState::Done(3));
    assert_eq!(longer, vec![7, 8, 9]);
    for len in 0..5 {
        let mut buffer = vec![1; len];
        assert_eq!(read_segments(len, &mut buffer), SegmentState::Done(0));
        assert_eq!(buffer, vec![1; len]);
        let mut longer = vec![2; 9];
        assert_eq!(read_segments(len, &mut longer), SegmentState::Done(0));
        assert_eq!(longer, vec![2; 9]);
    }
}

#[test]
fn segments_are_put_together() {
    let packet = construct_bantam_packet(DataPacket::new((0..100).collect()));
    for split in 5..packet.len() {
        let mut buffer = packet[..split].to_vec();
        let progress = match read_segments(split, &mut buffer) {
            SegmentState::Reading(progress) => progress,
            other => panic!("{:?}", other),
        };
        assert_eq!(
            progress,
            SegmentProgress { total_packet_size: 105, total_packet_bytes_received: split - 4 }
        );
        let middle = (split + packet.len()) / 2;
        let event = SegmentEvent::Received(packet[split..middle].to_vec());
        let progress = match resume_segments(progress, &mut buffer, event) {
            SegmentState::Reading(progress) => progress,
            other => panic!("{:?}", other),
        };
        let event = SegmentEvent::Received(packet[middle..].to_vec());
        assert_eq!(resume_segments(progress, &mut buffer, event), SegmentState::Done(105));
        assert_eq!(buffer, packet[4..].to_vec());
    }
    let mut buffer = packet.clone();
    assert_eq!(read_segments(packet.len(), &mut buffer), SegmentState::Done(105));
}

#[test]
fn reading_segments_can_fail() {
    let progress = SegmentProgress { total_packet_size: 9, total_packet_bytes_received: 2 };
    let mut buffer = vec![1, 2];
    assert_eq!(
        resume_segments(progress, &mut buffer, SegmentEvent::TimedOut),
        SegmentState::TimedOut(BantamError::ReadTimeout)
    );
    assert_eq!(
        resume_segments(progress, &mut buffer, SegmentEvent::Failed),
        SegmentState::Failed
    );
    assert_eq!(buffer, vec![1, 2]);
}

#[test]
fn peers_come_and_go() {
    let mut state = PeerSharedState::new(listening_addr(8000));
    assert_eq!(state.get_peer_count(), 0);
    let _a = join(&mut state, 1);
    let _b = join(&mut state, 2);
    assert_eq!(state.get_peer_count(), 2);
    let (sender, _receiver) = unbounded_channel();
    assert!(!state.add_peer(addr(1, 5000), Peer { listener_addr: addr(1, 8001), sender }));
    assert_eq!(state.get_peer_count(), 2);
    let mut peers: Vec<(SocketAddr, SocketAddr)> =
        state.get_peers().iter().map(|(addr, peer)| (**addr, peer.listener_addr)).collect();
    peers.sort_by_key(|entry| entry.1.port());
    assert_eq!(
        peers,
        vec![(addr(2, 5000), addr(2, 8000)), (addr(1, 5000), addr(1, 8001))]
    );
    assert!(state.remove_peer(addr(1, 5000)));
    assert!(!state.remove_peer(addr(1, 5000)));
    assert!(!state.contains_peer(addr(1, 5000)));
    assert!(state.contains_peer(addr(2, 5000)));
    assert_eq!(state.get_peer_count(), 1);
}

#[test]
fn messages_reach_every_peer() {
    let mut state = PeerSharedState::new(listening_addr(8000));
    let mut receivers = vec![join(&mut state, 1), join(&mut state, 2), join(&mut state, 3)];
    send_data_packet(vec![5, 6], &mut state).unwrap();
    shutdown(&mut state).unwrap();
    for receiver in receivers.iter_mut() {
        assert_eq!(receiver.try_recv().unwrap(), vec![7, 0, 0, 0, 2, 2, 0, 0, 0, 5, 6]);
        assert_eq!(receiver.try_recv().unwrap(), vec![2, 0, 0, 0, 3, 0]);
        assert!(receiver.try_recv().is_err());
    }
}

#[test]
fn messages_reach_one_peer() {
    let mut state = PeerSharedState::new(listening_addr(8000));
    let mut first = join(&mut state, 1);
    let mut second = join(&mut state, 2);
    send_data_packet_to(vec![5], addr(2, 5000), &mut state).unwrap();
    send_bantam_packet_to(ByePacket::new(1), addr(2, 5000), &mut state).unwrap();
    send_data_packet_to(vec![6], addr(9, 5000), &mut state).unwrap();
    assert!(first.try_recv().is_err());
    assert_eq!(second.try_recv().unwrap(), vec![6, 0, 0, 0, 2, 1, 0, 0, 0, 5]);
    assert_eq!(second.try_recv().unwrap(), vec![2, 0, 0, 0, 3, 1]);
    assert!(second.try_recv().is_err());
}

#[test]
fn lost_messages_are_handed_back() {
    let mut state = PeerSharedState::new(listening_addr(8000));
    drop(join(&mut state, 1));
    let failure = send_packet_to(vec![1, 2, 3], addr(1, 5000), &mut state).unwrap_err();
    assert_eq!(failure.addr, addr(1, 5000));
    assert_eq!(failure.bytes, vec![1, 2, 3]);
    let failure = shutdown(&mut state).unwrap_err();
    assert_eq!(failure.addr, addr(1, 5000));
    assert_eq!(failure.bytes, vec![2, 0, 0, 0, 3, 0]);
    assert!(state.remove_peer(addr(1, 5000)));
    shutdown(&mut state).unwrap();
}

#[test]
fn sending_stops_at_the_first_refusal() {
    let mut state = PeerSharedState::new(listening_addr(8000));
    let mut receivers = vec![join(&mut state, 1), join(&mut state, 3)];
    drop(join(&mut state, 2));
    let failure = send_data_packet(vec![7], &mut state).unwrap_err();
    assert_eq!(failure.addr, addr(2, 5000));
    for receiver in receivers.iter_mut() {
        if let Ok(message) = receiver.try_recv() {
            assert_eq!(message, failure.bytes);
        }
        assert!(receiver.try_recv().is_err());
    }
    assert_eq!(state.get_peer_count(), 3);
}

#[test]
fn joining_goes_down_the_list() {
    let mut state = PeerSharedState::new(listening_addr(8000));
    let _first = join(&mut state, 1);
    let accepting = addr(1, 5000);
    let list = vec![listed(1, 5000), listed(2, 8000), listed(3, 5000), listed(4, 8000)];
    let response = HandshakeResponsePacket::new(list);
    let connect = |index: usize, host: u8| JoinAction::Connect {
        index,
        addr: addr(host, 8000),
        request_peers: false,
    };
    assert_eq!(
        resume_join(&state, &response, accepting, JoinEvent::Responded),
        connect(1, 2)
    );
    let _third = join(&mut state, 3);
    for connected in vec![false, true] {
        let event = JoinEvent::Attempted { index: 1, connected };
        assert_eq!(resume_join(&state, &response, accepting, event), connect(3, 4));
        let event = JoinEvent::Attempted { index: 3, connected };
        assert_eq!(
            resume_join(&state, &response, accepting, event),
            JoinAction::TellConnected { addr: accepting }
        );
    }
    let empty = HandshakeResponsePacket::new(vec![]);
    assert_eq!(
        resume_join(&state, &empty, accepting, JoinEvent::Responded),
        JoinAction::TellConnected { addr: accepting }
    );
}

#[test]
fn connections_open_with_a_handshake() {
    let state = PeerSharedState::new(listening_addr(0x1234));
    assert_eq!(state.listener_addr().port(), 0x1234);
    assert_eq!(state.listener_addr().ip(), IpAddr::V4(Ipv4Addr::new(0, 0, 0, 0)));
    assert_eq!(opening_handshake(&state, true), vec![4, 0, 0, 0, 0, 0x34, 0x12, 1]);
    assert_eq!(opening_handshake(&state, false), vec![4, 0, 0, 0, 0, 0x34, 0x12, 0]);
}

#[test]
fn connecting_can_fail() {
    assert_eq!(setup_outgoing_peer(ConnectEvent::Connected), ConnectAction::SendHandshake);
    assert_eq!(setup_outgoing_peer(ConnectEvent::Refused), ConnectAction::ReturnError);
    assert_eq!(
        setup_outgoing_peer(ConnectEvent::TimedOut),
        ConnectAction::Fail(BantamError::ConnectionTimeout)
    );
}

fn response_of(reply: &[u8]) -> Vec<SerializableSocketAddr> {
    let (kind, mut stream) = deconstruct_bantam_packet(reply[4..].to_vec());
    assert_eq!(kind, BantamPacketType::HandshakeResponse);
    HandshakeResponsePacket::from_stream(&mut stream).peers
}

fn shake_hands(state: &mut PeerSharedState, host: u8, request_peers: bool) -> Vec<u8> {
    let (tx, mut rx) = unbounded_channel();
    let bytes = construct_bantam_packet(HandshakeRequestPacket::new(8000, request_peers));
    assert!(is_acceptable(&bytes[4..].to_vec()));
    let outcome = process_packet(bytes[4..].to_vec(), addr(host, 6000), tx, state).unwrap();
    assert!(matches!(outcome, PacketOutcome::Introduced));
    assert!(outcome.connected());
    let reply = rx.try_recv().unwrap();
    assert!(rx.try_recv().is_err());
    reply
}

#[test]
fn handshakes_are_answered_on_their_connection() {
    let mut state = PeerSharedState::new(listening_addr(8000));
    let mut other = join(&mut state, 1);
    let bytes = construct_bantam_packet(HandshakeRequestPacket::new(8000, true));
    let expected =
        vec![15, 0, 0, 0, 1, 1, 0, 0, 0, 0x40, 0x1f, 4, 0, 0, 0, 10, 0, 0, 1];

    let (tx, mut rx) = unbounded_channel();
    let (_, stream) = deconstruct_bantam_packet(bytes[4..].to_vec());
    assert_eq!(introduce_peer(stream, addr(2, 6000), tx.clone(), &mut state), expected);
    assert!(rx.try_recv().is_err());

    let (_, stream) = deconstruct_bantam_packet(bytes[4..].to_vec());
    process_handshake_packet(stream, addr(2, 6000), tx, &mut state).unwrap();
    assert_eq!(rx.try_recv().unwrap(), expected);
    assert!(other.try_recv().is_err());
    assert!(state.contains_peer(addr(2, 6000)));

    drop(rx);
    let (tx, rx) = unbounded_channel();
    drop(rx);
    let result = process_packet(bytes[4..].to_vec(), addr(2, 6000), tx, &mut state);
    match result {
        Err(failure) => {
            assert_eq!(failure.addr, addr(2, 6000));
            assert_eq!(failure.bytes, expected);
        }
        Ok(_) => panic!("queued"),
    }
    assert!(state.contains_peer(addr(2, 6000)));
}

#[test]
fn errors_have_words() {
    assert_eq!(BantamError::ConnectionTimeout.message(), "ConnectionTimeout");
    assert_eq!(BantamError::ReadTimeout.message(), "ReadTimeout");
    assert_eq!(BantamError::ReceivedCorruptedPacket.message(), "ReceivedCorruptedPacket");
}

#[test]
fn newcomers_learn_of_the_others() {
    let mut state = PeerSharedState::new(listening_addr(8000));
    assert_eq!(response_of(&shake_hands(&mut state, 1, true)), vec![]);
    assert_eq!(response_of(&shake_hands(&mut state, 2, true)), vec![listed(1, 8000)]);
    let mut peers = response_of(&shake_hands(&mut state, 3, true));
    peers.sort_by_key(|peer| peer.to_sock_addr().ip() == IpAddr::V4(Ipv4Addr::new(10, 0, 0, 2)));
    assert_eq!(peers, vec![listed(1, 8000), listed(2, 8000)]);
    assert_eq!(shake_hands(&mut state, 4, false), vec![5, 0, 0, 0, 1, 0, 0, 0, 0]);
    assert_eq!(state.get_peer_count(), 4);
    for (_, peer) in state.get_peers() {
        assert_eq!(peer.listener_addr.port(), 8000);
    }
}

#[test]
fn accepted_peers_are_added() {
    let mut state = PeerSharedState::new(listening_addr(8000));
    let (tx, _rx) = unbounded_channel();
    let list = vec![listed(1, 5000), listed(2, 8000), listed(3, 8000)];
    let bytes = construct_bantam_packet(HandshakeResponsePacket::new(list.clone()));
    match process_packet(bytes[4..].to_vec(), addr(1, 5000), tx, &mut state) {
        Ok(PacketOutcome::Connected(response)) => {
            assert_eq!(response.peers, list);
            assert_eq!(state.next_connection(&response.peers, 0), Some(1));
            assert_eq!(state.next_connection(&response.peers, 2), Some(2));
            assert_eq!(state.next_connection(&response.peers, 3), None);
            assert_eq!(state.next_connection(&response.peers, 9), None);
        }
        _ => panic!("not connected"),
    }
    assert_eq!(state.get_peers()[0].1.listener_addr, addr(1, 5000));
}

#[test]
fn data_and_goodbyes_are_told_apart() {
    let mut state = PeerSharedState::new(listening_addr(8000));
    let (tx, _rx) = unbounded_channel();
    let bytes = construct_bantam_packet(DataPacket::new(vec![4, 5, 6]));
    match process_packet(bytes[4..].to_vec(), addr(1, 5000), tx.clone(), &mut state) {
        Ok(PacketOutcome::Received(data)) => assert_eq!(data, vec![4, 5, 6]),
        _ => panic!("no data"),
    }
    let bytes = construct_bantam_packet(ByePacket::new(0));
    let outcome = process_packet(bytes[4..].to_vec(), addr(1, 5000), tx, &mut state);
    assert!(matches!(outcome, Ok(PacketOutcome::Left)));
    assert!(!outcome.unwrap().connected());
    assert_eq!(state.get_peer_count(), 0);
}

#[test]
fn corrupted_packets_are_not_acceptable() {
    assert!(!is_acceptable(&vec![]));
    assert!(!is_acceptable(&vec![4]));
    assert!(!is_acceptable(&vec![0, 1, 2]));
    assert!(is_acceptable(&vec![0, 1, 2, 3]));
    assert!(!is_acceptable(&vec![1, 0, 0, 0]));
    assert!(is_acceptable(&vec![1, 0, 0, 0, 0]));
    assert!(!is_acceptable(&vec![1, 1, 0, 0, 0]));
    assert!(!is_acceptable(&vec![1, 1, 0, 0, 0, 5, 5, 5, 0, 0, 0, 1, 2, 3, 4, 5]));
    assert!(!is_acceptable(&vec![1, 1, 0, 0, 0, 5, 5, 4, 0, 0, 0, 1, 2, 3]));
    assert!(is_acceptable(&vec![1, 1, 0, 0, 0, 5, 5, 4, 0, 0, 0, 1, 2, 3, 4]));
    assert!(!is_acceptable(&vec![2, 1, 0, 0, 0]));
    assert!(is_acceptable(&vec![2, 1, 0, 0, 0, 7]));
    assert!(is_acceptable(&vec![3]));
}

#[test]
fn connections_are_served() {
    let message = handle_peer_io_loop(IoEvent::MessageQueued(vec![1]));
    assert!(matches!(message, IoAction::Write(bytes) if bytes == vec![1]));
    assert!(matches!(handle_peer_io_loop(IoEvent::MessageWritten(true)), IoAction::Wait));
    assert!(matches!(handle_peer_io_loop(IoEvent::MessageWritten(false)), IoAction::Abort));
    assert!(matches!(handle_peer_io_loop(IoEvent::SegmentsRead(Some(3))), IoAction::Process));
    assert!(matches!(
        handle_peer_io_loop(IoEvent::SegmentsRead(Some(0))),
        IoAction::Disconnect { report_error: false }
    ));
    assert!(matches!(
        handle_peer_io_loop(IoEvent::SegmentsRead(None)),
        IoAction::Disconnect { report_error: true }
    ));
    assert!(matches!(handle_peer_io_loop(IoEvent::PacketProcessed(Some(true))), IoAction::Wait));
    assert!(matches!(
        handle_peer_io_loop(IoEvent::PacketProcessed(Some(false))),
        IoAction::Disconnect { report_error: false }
    ));
    assert!(matches!(
        handle_peer_io_loop(IoEvent::PacketProcessed(None)),
        IoAction::Disconnect { report_error: true }
    ));
    assert!(matches!(
        handle_peer_io_loop(IoEvent::ReadFailed { connection_reset: true }),
        IoAction::Disconnect { report_error: false }
    ));
    assert!(matches!(
        handle_peer_io_loop(IoEvent::ReadFailed { connection_reset: false }),
        IoAction::Disconnect { report_error: true }
    ));
}

#[test]
fn connections_end_once() {
    for end in vec![
        IoEvent::SegmentsRead(Some(0)),
        IoEvent::SegmentsRead(None),
        IoEvent::PacketProcessed(Some(false)),
        IoEvent::PacketProcessed(None),
        IoEvent::ReadFailed { connection_reset: true },
        IoEvent::ReadFailed { connection_reset: false },
    ] {
        assert!(matches!(handle_peer_io_loop(end), IoAction::Disconnect { .. }));
    }
    assert!(matches!(handle_peer_io_loop(IoEvent::DisconnectTold), IoAction::RemovePeer));
    assert!(matches!(handle_peer_io_loop(IoEvent::PeerRemoved), IoAction::Finish));
}
