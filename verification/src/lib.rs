//! A peer-to-peer messaging library: byte streams, the packets that peers
//! exchange, and the rules by which a peer joins a network, answers its peers and
//! leaves.
//!
//! The library decides and computes. Sockets, timers and tasks are its callers'.

pub mod binary_stream;
pub mod endian;
pub mod framing;
pub mod laws;
pub mod net;
pub mod packet;
pub mod peer;
pub mod peer_laws;
pub mod plain;
pub mod session;
pub mod util;
pub mod wire_laws;

pub use binary_stream::{BinaryStream, BinaryStreamMode, StreamError};
pub use framing::{
    check_first_packet_segment, construct_bantam_packet, deconstruct_bantam_packet, read_segments,
    resume_segments, SegmentEvent, SegmentProgress, SegmentState,
};
pub use net::{IpAddr, Ipv4Addr, Ipv6Addr, SocketAddr, SocketAddrV4, SocketAddrV6};
pub use packet::{
    BantamPacketType, ByePacket, DataPacket, HandshakePacket, HandshakeRequestPacket,
    HandshakeResponsePacket, Packet, PacketHeader, PacketType, Serializable,
};
pub use peer::{
    BantamError, Peer, PeerSharedState, SendFailure, Tx,
    TCP_STREAM_CONNECTION_TIMEOUT_SECS, TCP_STREAM_READ_BUFFER_SIZE, TCP_STREAM_READ_TIMEOUT_SECS,
};
pub use session::{
    handle_peer_io_loop, introduce_peer, is_acceptable, listening_addr, opening_handshake,
    process_handshake_packet, process_handshake_response_packet, process_packet, resume_join,
    send_bantam_packet, send_bantam_packet_to, send_data_packet, send_data_packet_to, send_packet,
    send_packet_to, setup_outgoing_peer, shutdown, ConnectAction, ConnectEvent, IoAction, IoEvent,
    JoinAction, JoinEvent, PacketOutcome,
};
pub use util::SerializableSocketAddr;
