use std::collections::VecDeque;

use bantam::{
    BantamPacketType, BinaryStream, BinaryStreamMode, ByePacket, DataPacket, HandshakePacket,
    HandshakeRequestPacket, HandshakeResponsePacket, IpAddr, Ipv4Addr, Ipv6Addr, PacketHeader,
    PacketType, Serializable, SerializableSocketAddr, SocketAddr, SocketAddrV4, SocketAddrV6,
    StreamError,
};

#[derive(Debug, Default, PartialEq)]
struct Alpha(u32, Vec<u8>);

impl Serializable for Alpha {
    fn to_stream(&self, stream: &mut BinaryStream) {
        stream.write_u32(self.0).unwrap();
        stream.write_byte_vec(&self.1).unwrap();
    }

    fn from_stream(stream: &mut BinaryStream) -> Self {
        Alpha(stream.read_u32().unwrap(), stream.read_byte_vec().unwrap())
    }
}

fn reading(bytes: &[u8]) -> BinaryStream {
    BinaryStream::from_bytes(bytes)
}

#[test]
fn serialization_test() {
    let vec = vec![Alpha(1, vec![5, 10, 15]), Alpha(2, vec![100, 200, 255]), Alpha(3, vec![5, 7, 12])];
    let mut stream = BinaryStream::new();
    stream.write_vec(&vec).unwrap();

    let mut deserialization_stream = BinaryStream::from_buffer(stream.get_buffer());
    let vec_new_deserialized = deserialization_stream.read_vec::<Alpha>().unwrap();

    for i in 0..vec.len() {
        assert_eq!(vec[i], vec_new_deserialized[i])
    }
    assert_eq!(vec_new_deserialized.len(), 3);
    assert_eq!(deserialization_stream.size(), 0);
}

#[test]
fn empty_vec_serialization_test() {
    let alpha = Alpha(0, vec![]);
    let mut stream = BinaryStream::new();
    alpha.to_stream(&mut stream);

    let mut deserialization_stream = BinaryStream::from_buffer(stream.get_buffer());
    let alpha_deserialized = Alpha::from_stream(&mut deserialization_stream);
    println!("A {:?} <=> A-Des. {:?}", alpha, alpha_deserialized);
    assert_eq!(alpha, alpha_deserialized)
}

#[test]
fn socket_addr_serialization_test() {
    let sock_addr = SerializableSocketAddr::from_sock_addr(SocketAddr::V6(SocketAddrV6 {
        ip: Ipv6Addr::new(0, 25, 0, 0, 0, 668, 0, 1),
        port: 8081,
        flowinfo: 0,
        scope_id: 0,
    }));
    let sock_addr2 = SerializableSocketAddr::from_sock_addr(SocketAddr::V6(SocketAddrV6 {
        ip: Ipv6Addr::new(12312, 0, 0, 1, 0, 0, 0, 2),
        port: 8080,
        flowinfo: 0,
        scope_id: 0,
    }));

    let handshake_res_packet = HandshakeResponsePacket { peers: vec![sock_addr, sock_addr2] };
    let mut stream = BinaryStream::new();
    handshake_res_packet.to_stream(&mut stream);

    let mut deser_stream = BinaryStream::from_buffer(stream.get_buffer());
    let deser_handshake_res_packet = HandshakeResponsePacket::from_stream(&mut deser_stream);

    assert_eq!(deser_handshake_res_packet.peers.len(), 2);
    for i in 0..deser_handshake_res_packet.peers.len() {
        assert_eq!(handshake_res_packet.peers[i], deser_handshake_res_packet.peers[i]);
    }
}

#[test]
fn integers_are_little_endian() {
    let mut stream = BinaryStream::new();
    stream.write_u16(0x1234).unwrap();
    stream.write_u32(0x0102_0304).unwrap();
    stream.write_u64(0x0102_0304_0506_0708).unwrap();
    stream.write_u128(1 << 120).unwrap();
    let mut expected = vec![0x34, 0x12, 4, 3, 2, 1, 8, 7, 6, 5, 4, 3, 2, 1];
    expected.extend(vec![0u8; 15]);
    expected.push(1);
    assert_eq!(stream.get_buffer_vec(), expected);
}

#[test]
fn integers_are_read_back() {
    let mut stream = BinaryStream::new();
    stream.write_u16(u16::MAX).unwrap();
    stream.write_u32(70_000).unwrap();
    stream.write_u64(u64::MAX - 1).unwrap();
    stream.write_u128(u128::MAX).unwrap();
    stream.write_bool(true).unwrap();
    stream.write_bool(false).unwrap();
    assert_eq!(stream.size(), 32);
    let mut stream = BinaryStream::from_buffer(stream.get_buffer());
    assert_eq!(stream.read_u16(), Ok(u16::MAX));
    assert_eq!(stream.read_u32(), Ok(70_000));
    assert_eq!(stream.read_u64(), Ok(u64::MAX - 1));
    assert_eq!(stream.read_u128(), Ok(u128::MAX));
    assert_eq!(stream.read_bool(), Ok(true));
    assert_eq!(stream.read_bool(), Ok(false));
    assert_eq!(stream.size(), 0);
}

#[test]
fn only_one_reads_as_true() {
    let mut stream = reading(&[2, 1, 0]);
    assert_eq!(stream.read_bool(), Ok(false));
    assert_eq!(stream.read_bool(), Ok(true));
    assert_eq!(stream.read_bool(), Ok(false));
}

#[test]
fn strings_are_counted_in_bytes() {
    let mut stream = BinaryStream::new();
    stream.write_string(&"h\u{e9}".to_string()).unwrap();
    let bytes = stream.get_buffer_vec();
    assert_eq!(bytes, vec![3, 0, 0, 0, b'h', 0xc3, 0xa9]);
    let mut stream = reading(&bytes);
    assert_eq!(stream.read_string().unwrap(), "h\u{e9}");
    let mut stream = reading(&[0, 0, 0, 0, 9]);
    assert_eq!(stream.read_string().unwrap(), "");
    assert_eq!(stream.read_buffer_single(), Ok(9));
}

#[test]
fn byte_vectors_are_counted() {
    let mut stream = BinaryStream::new();
    stream.write_byte_vec(&vec![7, 8, 9]).unwrap();
    let bytes = stream.get_buffer_vec();
    assert_eq!(bytes, vec![3, 0, 0, 0, 7, 8, 9]);
    assert_eq!(reading(&bytes).read_byte_vec(), Ok(vec![7, 8, 9]));
}

#[test]
fn reading_streams_refuse_writes() {
    let mut stream = reading(&[1, 2]);
    assert_eq!(stream.write_buffer_single(1), Err(StreamError::ReadOnly));
    assert_eq!(stream.write_buffer(&vec![1]), Err(StreamError::ReadOnly));
    assert_eq!(stream.write_bool(true), Err(StreamError::ReadOnly));
    assert_eq!(stream.write_u16(1), Err(StreamError::ReadOnly));
    assert_eq!(stream.write_u32(1), Err(StreamError::ReadOnly));
    assert_eq!(stream.write_u64(1), Err(StreamError::ReadOnly));
    assert_eq!(stream.write_u128(1), Err(StreamError::ReadOnly));
    assert_eq!(stream.write_packet_type(BantamPacketType::Bye), Err(StreamError::ReadOnly));
    assert_eq!(stream.write_vec(&vec![Alpha(1, vec![])]), Err(StreamError::ReadOnly));
    assert_eq!(stream.get_buffer_vec(), vec![1, 2]);
    assert_eq!(StreamError::ReadOnly.message(), "Stream is in read-only mode");
}

#[test]
fn writing_streams_refuse_reads() {
    let mut stream = BinaryStream::new();
    stream.write_buffer(&vec![1, 2]).unwrap();
    assert_eq!(stream.read_buffer_single(), Err(StreamError::Writing));
    assert_eq!(stream.read_buffer(1), Err(StreamError::Writing));
    assert_eq!(stream.read_bool(), Err(StreamError::Writing));
    assert_eq!(stream.read_u16(), Err(StreamError::Writing));
    assert_eq!(stream.read_u32(), Err(StreamError::Writing));
    assert_eq!(stream.read_u64(), Err(StreamError::Writing));
    assert_eq!(stream.read_u128(), Err(StreamError::Writing));
    assert_eq!(stream.read_string(), Err(StreamError::Writing));
    assert_eq!(stream.read_byte_vec(), Err(StreamError::Writing));
    assert_eq!(stream.read_vec::<Alpha>().err(), Some(StreamError::Writing));
    assert_eq!(stream.read_packet_type::<BantamPacketType>(), Err(StreamError::Writing));
    assert_eq!(stream.get_buffer_vec(), vec![1, 2]);
    assert_eq!(StreamError::Writing.message(), "Stream is in writing mode");
}

#[test]
fn buffers_are_first_in_first_out() {
    let mut stream = BinaryStream::with_capacity(Some(8));
    assert_eq!(stream.mode, BinaryStreamMode::Write);
    stream.write_buffer(&vec![1, 2, 3]).unwrap();
    stream.write_buffer_single(4).unwrap();
    let buffer: VecDeque<u8> = stream.get_buffer();
    let mut stream = BinaryStream::from_buffer(buffer);
    assert_eq!(stream.mode, BinaryStreamMode::Read);
    assert_eq!(stream.read_buffer(2), Ok(vec![1, 2]));
    assert_eq!(stream.read_buffer(0), Ok(vec![]));
    assert_eq!(stream.read_buffer(2), Ok(vec![3, 4]));
}

#[test]
fn packet_types_have_bytes() {
    let kinds = [
        (BantamPacketType::Handshake, 0),
        (BantamPacketType::HandshakeResponse, 1),
        (BantamPacketType::Data, 2),
        (BantamPacketType::Bye, 3),
    ];
    for (kind, byte) in kinds {
        assert_eq!(kind.to_byte(), byte);
        assert_eq!(BantamPacketType::from_byte(byte), Some(kind));
        assert_eq!(reading(&[byte]).read_packet_type(), Ok(kind));
    }
    for byte in 4..=255 {
        assert_eq!(BantamPacketType::from_byte(byte), None);
    }
}

#[test]
fn packets_know_their_kind() {
    assert_eq!(HandshakePacket::new(1).get_type(), BantamPacketType::Handshake);
    assert_eq!(HandshakeRequestPacket::new(1, true).get_type(), BantamPacketType::Handshake);
    assert_eq!(HandshakeResponsePacket::new(vec![]).get_type(), BantamPacketType::HandshakeResponse);
    assert_eq!(DataPacket::new(vec![]).get_type(), BantamPacketType::Data);
    assert_eq!(ByePacket::new(0).get_type(), BantamPacketType::Bye);
}

#[test]
fn packets_are_read_back() {
    let mut stream = BinaryStream::new();
    HandshakePacket::new(8080).to_stream(&mut stream);
    HandshakeRequestPacket::new(9090, true).to_stream(&mut stream);
    DataPacket::new(vec![1, 2, 3]).to_stream(&mut stream);
    ByePacket::new(7).to_stream(&mut stream);
    let bytes = stream.get_buffer_vec();
    assert_eq!(bytes, vec![0x90, 0x1f, 0x82, 0x23, 1, 3, 0, 0, 0, 1, 2, 3, 7]);
    let mut stream = reading(&bytes);
    assert_eq!(HandshakePacket::from_stream(&mut stream), HandshakePacket::new(8080));
    assert_eq!(
        HandshakeRequestPacket::from_stream(&mut stream),
        HandshakeRequestPacket::new(9090, true)
    );
    assert_eq!(DataPacket::from_stream(&mut stream).bytes, vec![1, 2, 3]);
    assert_eq!(ByePacket::from_stream(&mut stream), ByePacket::new(7));
    assert_eq!(stream.size(), 0);
}

#[test]
fn addresses_have_their_octets() {
    let v4 = SerializableSocketAddr::new(IpAddr::V4(Ipv4Addr::new(127, 0, 0, 1)), 258);
    let mut stream = BinaryStream::new();
    v4.to_stream(&mut stream);
    assert_eq!(stream.get_buffer_vec(), vec![2, 1, 4, 0, 0, 0, 127, 0, 0, 1]);

    let ip = Ipv6Addr::new(0x0102, 0x0304, 0, 0, 0, 0, 0, 0xfffe);
    let octets = vec![1, 2, 3, 4, 0, 0, 0, 0, 0, 0, 0, 0, 0, 0, 0xff, 0xfe];
    assert_eq!(ip.octets(), octets);
    assert_eq!(
        bantam::util::byte_vec_to_short_vec(octets),
        vec![0x0102, 0x0304, 0, 0, 0, 0, 0, 0xfffe]
    );
    let v6 = SerializableSocketAddr::new(IpAddr::V6(ip), 1);
    let mut stream = BinaryStream::new();
    v6.to_stream(&mut stream);
    assert_eq!(stream.size(), 22);
    let mut stream = BinaryStream::from_buffer(stream.get_buffer());
    assert_eq!(SerializableSocketAddr::from_stream(&mut stream), v6);
}

#[test]
fn addresses_convert() {
    let v4 = SocketAddr::V4(SocketAddrV4 { ip: Ipv4Addr::new(1, 2, 3, 4), port: 5 });
    assert_eq!(SerializableSocketAddr::from_sock_addr(v4).to_sock_addr(), v4);
    let v6 = SocketAddrV6 { ip: Ipv6Addr::new(1, 2, 3, 4, 5, 6, 7, 8), port: 9, flowinfo: 3, scope_id: 4 };
    assert_eq!(
        SerializableSocketAddr::from_sock_addr(SocketAddr::V6(v6)).to_sock_addr(),
        SocketAddr::V6(SocketAddrV6 { flowinfo: 0, scope_id: 0, ..v6 })
    );
    let default = SerializableSocketAddr::default();
    assert_eq!(default, SerializableSocketAddr::new(IpAddr::V4(Ipv4Addr::new(0, 0, 0, 0)), 0));
    let mut moved = SocketAddr::V6(v6);
    moved.set_port(77);
    assert_eq!(moved, SocketAddr::V6(SocketAddrV6 { port: 77, ..v6 }));
    assert_eq!(moved.ip(), IpAddr::V6(v6.ip));
    assert_eq!(moved.port(), 77);
}

#[test]
fn plain_streams_carry_the_same_bytes() {
    let v4 = SerializableSocketAddr::new(IpAddr::V4(Ipv4Addr::new(10, 0, 0, 2)), 8081);
    let v6 = SerializableSocketAddr::new(IpAddr::V6(Ipv6Addr::new(0, 25, 0, 0, 0, 668, 0, 1)), 8080);
    for addr in [v4, v6] {
        let mut stream = BinaryStream::new();
        addr.to_stream(&mut stream);
        let bytes = stream.get_buffer_vec();
        assert_eq!(addr.to_plain_bytes(), bytes);
        assert_eq!(SerializableSocketAddr::from_plain_bytes(&bytes), addr);
    }
}

#[test]
fn plain_streams_carry_lists() {
    let packet = HandshakeResponsePacket::new(vec![
        SerializableSocketAddr::new(IpAddr::V6(Ipv6Addr::new(12312, 0, 0, 1, 0, 0, 0, 2)), 8080),
        SerializableSocketAddr::new(IpAddr::V4(Ipv4Addr::new(10, 0, 0, 2)), 8081),
    ]);
    let mut stream = plain_binary_stream::BinaryStream::new();
    packet.to_plain_stream(&mut stream);
    let bytes = stream.get_buffer_vec();
    assert_eq!(bytes, packet.to_plain_bytes());
    assert_eq!(bytes[..10], [2, 0, 0, 0, 0x90, 0x1f, 16, 0, 0, 0]);
    let mut own = BinaryStream::new();
    packet.to_stream(&mut own);
    assert_eq!(own.get_buffer_vec(), bytes);
    let mut stream = plain_binary_stream::BinaryStream::from_bytes(&bytes);
    assert_eq!(HandshakeResponsePacket::from_plain_stream(&mut stream).peers, packet.peers);
    assert_eq!(stream.size(), 0);
    assert_eq!(HandshakeResponsePacket::from_plain_bytes(&bytes).peers, packet.peers);
}
