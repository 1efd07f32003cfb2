//! What can be written to a stream and read from it, and the packets that
//! peers exchange.

use vstd::prelude::*;

use crate::binary_stream;
use crate::binary_stream::{announced_at, BinaryStream};
use crate::endian;
use crate::util::SerializableSocketAddr;

verus! {

/// A kind of packet, told apart on the wire by one byte. The specification
/// functions are left open where an implementation does not give them.
pub trait PacketType: Sized {
    /// The byte that stands for this kind.
    open spec fn byte_of(&self) -> u8 {
        arbitrary()
    }

    /// The kind that `byte` stands for, if it stands for one.
    open spec fn type_of(byte: u8) -> Option<Self> {
        arbitrary()
    }

    fn to_byte(&self) -> (byte: u8)
        ensures
            byte == self.byte_of(),
    ;

    fn from_byte(byte: u8) -> (kind: Option<Self>)
        ensures
            kind == Self::type_of(byte),
    ;
}

/// A value that can be written to a stream and read from one. The specification
/// functions are left open where an implementation does not give them.
pub trait Serializable: Sized {
    /// The bytes that this value is written as.
    open spec fn encoded(&self) -> Seq<u8> {
        arbitrary()
    }

    /// Whether a value can be read from the front of `bytes`.
    open spec fn readable(bytes: Seq<u8>) -> bool {
        arbitrary()
    }

    /// How many bytes reading a value takes from the front of `bytes`.
    open spec fn read_len(bytes: Seq<u8>) -> nat {
        arbitrary()
    }

    /// Whether `self` is a value that reading the front of `bytes` gives.
    open spec fn read_from(&self, bytes: Seq<u8>) -> bool {
        arbitrary()
    }

    fn to_stream(&self, stream: &mut BinaryStream)
        requires
            old(stream).mode is Write,
        ensures
            final(stream).mode is Write,
            final(stream)@ == old(stream)@ + self.encoded(),
    ;

    fn from_stream(stream: &mut BinaryStream) -> (value: Self)
        requires
            old(stream).mode is Read,
            Self::readable(old(stream)@),
        ensures
            final(stream).mode is Read,
            Self::read_len(old(stream)@) <= old(stream)@.len(),
            final(stream)@ == old(stream)@.skip(Self::read_len(old(stream)@) as int),
            value.read_from(old(stream)@),
    ;
}

/// The bytes that `items` are written as, one after the other.
pub open spec fn items_encoded<T: Serializable>(items: Seq<T>) -> Seq<u8>
    decreases items.len(),
{
    if items.len() == 0 {
        Seq::empty()
    } else {
        items_encoded(items.drop_last()) + items.last().encoded()
    }
}

/// How many bytes reading `count` items one after the other takes from the
/// front of `bytes`.
pub open spec fn items_len<T: Serializable>(bytes: Seq<u8>, count: nat) -> nat
    decreases count,
{
    if count == 0 {
        0
    } else {
        let start = items_len::<T>(bytes, (count - 1) as nat);
        start + T::read_len(bytes.skip(start as int))
    }
}

/// What is left of `bytes` where the item with index `i` is read.
pub open spec fn from_item<T: Serializable>(bytes: Seq<u8>, i: nat) -> Seq<u8> {
    bytes.skip(items_len::<T>(bytes, i) as int)
}

/// Whether `count` items can be read one after the other from `bytes`.
pub open spec fn items_readable<T: Serializable>(bytes: Seq<u8>, count: nat) -> bool {
    forall|i: nat| i < count ==> T::readable(#[trigger] from_item::<T>(bytes, i))
}

/// Whether `items` are what reading `items.len()` items from `bytes` gives.
pub open spec fn items_read_from<T: Serializable>(items: Seq<T>, bytes: Seq<u8>) -> bool {
    forall|i: int|
        0 <= i < items.len() ==> (#[trigger] items[i]).read_from(from_item::<T>(bytes, i as nat))
}

/// A packet that knows its kind, which is left open where an implementation does
/// not give it.
pub trait PacketHeader<T: PacketType> {
    /// The kind of this packet.
    open spec fn kind(&self) -> T {
        arbitrary()
    }

    fn get_type(&self) -> (kind: T)
        ensures
            kind == self.kind(),
    ;
}

/// A packet: a value for streams that knows its kind.
pub trait Packet<T: PacketType>: Serializable + PacketHeader<T> {

}

/// The kinds of packets that peers exchange.
#[derive(Debug, Clone, Copy, PartialEq, Eq, Structural)]
pub enum BantamPacketType {
    Handshake,
    HandshakeResponse,
    Data,
    Bye,
}

impl PacketType for BantamPacketType {
    open spec fn byte_of(&self) -> u8 {
        match self {
            BantamPacketType::Handshake => 0,
            BantamPacketType::HandshakeResponse => 1,
            BantamPacketType::Data => 2,
            BantamPacketType::Bye => 3,
        }
    }

    open spec fn type_of(byte: u8) -> Option<Self> {
        if byte == 0 {
            Some(BantamPacketType::Handshake)
        } else if byte == 1 {
            Some(BantamPacketType::HandshakeResponse)
        } else if byte == 2 {
            Some(BantamPacketType::Data)
        } else if byte == 3 {
            Some(BantamPacketType::Bye)
        } else {
            None
        }
    }

    fn to_byte(&self) -> (byte: u8) {
        match self {
            BantamPacketType::Handshake => 0,
            BantamPacketType::HandshakeResponse => 1,
            BantamPacketType::Data => 2,
            BantamPacketType::Bye => 3,
        }
    }

    fn from_byte(byte: u8) -> (kind: Option<BantamPacketType>) {
        match byte {
            0 => Some(BantamPacketType::Handshake),
            1 => Some(BantamPacketType::HandshakeResponse),
            2 => Some(BantamPacketType::Data),
            3 => Some(BantamPacketType::Bye),
            _ => None,
        }
    }
}

/// The first thing a connecting peer says: the port on which it listens.
#[derive(Debug, Clone, Copy, PartialEq, Eq, Structural)]
pub struct HandshakePacket {
    pub listening_port: u16,
}

/// A handshake together with whether its sender asks for the list of peers.
#[derive(Debug, Clone, Copy, PartialEq, Eq, Structural)]
pub struct HandshakeRequestPacket {
    pub handshake: HandshakePacket,
    pub request_peers: bool,
}

/// The answer to a handshake: the addresses on which the other peers listen.
#[derive(Debug)]
pub struct HandshakeResponsePacket {
    pub peers: Vec<SerializableSocketAddr>,
}

/// Bytes that one peer has for another.
#[derive(Debug)]
pub struct DataPacket {
    pub bytes: Vec<u8>,
}

/// The last thing a peer says before it leaves.
#[derive(Debug, Clone, Copy, PartialEq, Eq, Structural)]
pub struct ByePacket {
    pub code: u8,
}

impl Serializable for HandshakePacket {
    open spec fn encoded(&self) -> Seq<u8> {
        endian::le_bytes(self.listening_port as nat, 2)
    }

    open spec fn readable(bytes: Seq<u8>) -> bool {
        bytes.len() >= 2
    }

    open spec fn read_len(bytes: Seq<u8>) -> nat {
        2
    }

    open spec fn read_from(&self, bytes: Seq<u8>) -> bool {
        self.listening_port == endian::le_value(bytes.take(2))
    }

    fn to_stream(&self, stream: &mut BinaryStream) {
        stream.write_u16(self.listening_port).unwrap();
    }

    fn from_stream(stream: &mut BinaryStream) -> (value: Self) {
        HandshakePacket::new(stream.read_u16().unwrap())
    }
}

impl PacketHeader<BantamPacketType> for HandshakePacket {
    open spec fn kind(&self) -> BantamPacketType {
        BantamPacketType::Handshake
    }

    fn get_type(&self) -> (kind: BantamPacketType) {
        BantamPacketType::Handshake
    }
}

impl HandshakePacket {
    pub fn new(listening_port: u16) -> (packet: HandshakePacket)
        ensures
            packet == (HandshakePacket { listening_port }),
    {
        HandshakePacket { listening_port }
    }
}

impl Serializable for HandshakeRequestPacket {
    open spec fn encoded(&self) -> Seq<u8> {
        self.handshake.encoded().push(
            if self.request_peers {
                1
            } else {
                0
            },
        )
    }

    open spec fn readable(bytes: Seq<u8>) -> bool {
        bytes.len() >= 3
    }

    open spec fn read_len(bytes: Seq<u8>) -> nat {
        3
    }

    open spec fn read_from(&self, bytes: Seq<u8>) -> bool {
        &&& self.handshake.read_from(bytes)
        &&& self.request_peers == (bytes[2] == 1)
    }

    fn to_stream(&self, stream: &mut BinaryStream) {
        self.handshake.to_stream(stream);
        stream.write_bool(self.request_peers).unwrap();
        assert(stream@ =~= old(stream)@ + self.encoded());
    }

    fn from_stream(stream: &mut BinaryStream) -> (value: Self) {
        let handshake = HandshakePacket::from_stream(stream);
        let request_peers = stream.read_bool().unwrap();
        assert(stream@ =~= old(stream)@.skip(3));
        HandshakeRequestPacket { handshake, request_peers }
    }
}

impl PacketHeader<BantamPacketType> for HandshakeRequestPacket {
    open spec fn kind(&self) -> BantamPacketType {
        BantamPacketType::Handshake
    }

    fn get_type(&self) -> (kind: BantamPacketType) {
        BantamPacketType::Handshake
    }
}

impl HandshakeRequestPacket {
    pub fn new(listening_port: u16, request_peers: bool) -> (packet: HandshakeRequestPacket)
        ensures
            packet == (HandshakeRequestPacket {
                handshake: HandshakePacket { listening_port },
                request_peers,
            }),
    {
        HandshakeRequestPacket { handshake: HandshakePacket::new(listening_port), request_peers }
    }
}

/// The bytes that a handshake response with the given peers is written as.
pub open spec fn response_encoded(peers: Seq<SerializableSocketAddr>) -> Seq<u8> {
    binary_stream::len_bytes(peers.len()) + items_encoded(peers)
}

impl Serializable for HandshakeResponsePacket {
    open spec fn encoded(&self) -> Seq<u8> {
        response_encoded(self.peers@)
    }

    open spec fn readable(bytes: Seq<u8>) -> bool {
        &&& bytes.len() >= 4
        &&& items_readable::<SerializableSocketAddr>(
            bytes.skip(4),
            binary_stream::announced_len(bytes),
        )
    }

    open spec fn read_len(bytes: Seq<u8>) -> nat {
        4 + items_len::<SerializableSocketAddr>(
            bytes.skip(4),
            binary_stream::announced_len(bytes),
        )
    }

    open spec fn read_from(&self, bytes: Seq<u8>) -> bool {
        &&& self.peers@.len() == binary_stream::announced_len(bytes)
        &&& items_read_from(self.peers@, bytes.skip(4))
    }

    fn to_stream(&self, stream: &mut BinaryStream) {
        stream.write_vec(&self.peers).unwrap();
    }

    fn from_stream(stream: &mut BinaryStream) -> (value: Self) {
        HandshakeResponsePacket { peers: stream.read_vec::<SerializableSocketAddr>().unwrap() }
    }
}

impl PacketHeader<BantamPacketType> for HandshakeResponsePacket {
    open spec fn kind(&self) -> BantamPacketType {
        BantamPacketType::HandshakeResponse
    }

    fn get_type(&self) -> (kind: BantamPacketType) {
        BantamPacketType::HandshakeResponse
    }
}

impl HandshakeResponsePacket {
    /// Whether a response can be read from the bytes from `start` on.
    pub fn can_read(bytes: &Vec<u8>, start: usize) -> (readable: bool)
        requires
            start <= bytes@.len(),
        ensures
            readable == Self::readable(bytes@.skip(start as int)),
    {
        let ghost content = bytes@.skip(start as int);
        if bytes.len() - start < 4 {
            return false;
        }
        let count = announced_at(bytes, start);
        let first: usize = start + 4;
        let ghost items = bytes@.skip(first as int);
        assert(items =~= content.skip(4));
        let mut offset: usize = first;
        let mut i: usize = 0;
        while i < count
            invariant
                first <= offset <= bytes@.len(),
                i <= count,
                content == bytes@.skip(start as int),
                content.len() >= 4,
                count == binary_stream::announced_len(content),
                items == content.skip(4),
                items == bytes@.skip(first as int),
                offset == first + items_len::<SerializableSocketAddr>(items, i as nat),
                items_readable::<SerializableSocketAddr>(items, i as nat),
            decreases count - i,
        {
            let ghost item = from_item::<SerializableSocketAddr>(items, i as nat);
            assert(item =~= bytes@.skip(offset as int));
            if !SerializableSocketAddr::can_read(bytes, offset) {
                assert(!SerializableSocketAddr::readable(item));
                return false;
            }
            assert(bytes@.skip(offset + 2) =~= item.skip(2));
            assert(offset + SerializableSocketAddr::read_len(item) <= bytes.len());
            offset = offset + 6 + announced_at(bytes, offset + 2);
            i = i + 1;
        }
        true
    }

    pub fn new(peers: Vec<SerializableSocketAddr>) -> (packet: HandshakeResponsePacket)
        ensures
            packet.peers == peers,
    {
        HandshakeResponsePacket { peers }
    }
}

impl Serializable for DataPacket {
    open spec fn encoded(&self) -> Seq<u8> {
        binary_stream::counted(self.bytes@)
    }

    open spec fn readable(bytes: Seq<u8>) -> bool {
        binary_stream::counted_readable(bytes)
    }

    open spec fn read_len(bytes: Seq<u8>) -> nat {
        4 + binary_stream::announced_len(bytes)
    }

    open spec fn read_from(&self, bytes: Seq<u8>) -> bool {
        self.bytes@ == binary_stream::counted_content(bytes)
    }

    fn to_stream(&self, stream: &mut BinaryStream) {
        stream.write_byte_vec(&self.bytes).unwrap();
    }

    fn from_stream(stream: &mut BinaryStream) -> (value: Self) {
        DataPacket { bytes: stream.read_byte_vec().unwrap() }
    }
}

impl PacketHeader<BantamPacketType> for DataPacket {
    open spec fn kind(&self) -> BantamPacketType {
        BantamPacketType::Data
    }

    fn get_type(&self) -> (kind: BantamPacketType) {
        BantamPacketType::Data
    }
}

impl DataPacket {
    pub fn new(bytes: Vec<u8>) -> (packet: DataPacket)
        ensures
            packet.bytes == bytes,
    {
        DataPacket { bytes }
    }
}

impl Serializable for ByePacket {
    open spec fn encoded(&self) -> Seq<u8> {
        seq![self.code]
    }

    open spec fn readable(bytes: Seq<u8>) -> bool {
        bytes.len() >= 1
    }

    open spec fn read_len(bytes: Seq<u8>) -> nat {
        1
    }

    open spec fn read_from(&self, bytes: Seq<u8>) -> bool {
        self.code == bytes[0]
    }

    fn to_stream(&self, stream: &mut BinaryStream) {
        stream.write_buffer_single(self.code).unwrap();
    }

    fn from_stream(stream: &mut BinaryStream) -> (value: Self) {
        ByePacket { code: stream.read_buffer_single().unwrap() }
    }
}

impl PacketHeader<BantamPacketType> for ByePacket {
    open spec fn kind(&self) -> BantamPacketType {
        BantamPacketType::Bye
    }

    fn get_type(&self) -> (kind: BantamPacketType) {
        BantamPacketType::Bye
    }
}

impl ByePacket {
    pub fn new(code: u8) -> (packet: ByePacket)
        ensures
            packet == (ByePacket { code }),
    {
        ByePacket { code }
    }
}

} // verus!
