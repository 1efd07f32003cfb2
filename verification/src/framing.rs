//! How a packet stands on a connection: its size, the byte of its kind, its
//! content. It may arrive in several segments.

use vstd::prelude::*;

use crate::binary_stream;
use crate::binary_stream::BinaryStream;
use crate::endian;
use crate::packet::{BantamPacketType, PacketHeader, PacketType, Serializable};
use crate::peer::BantamError;

verus! {

/// A packet without its size: the byte of its kind, then its content.
pub open spec fn payload(kind: BantamPacketType, content: Seq<u8>) -> Seq<u8> {
    seq![kind.byte_of()] + content
}

/// A packet as it stands on a connection: the size of the payload, then the
/// payload.
pub open spec fn packet_bytes(kind: BantamPacketType, content: Seq<u8>) -> Seq<u8> {
    binary_stream::counted(payload(kind, content))
}

/// The bytes that are sent for `packet`.
pub fn construct_bantam_packet<T: PacketHeader<BantamPacketType> + Serializable>(
    packet: T,
) -> (bytes: Vec<u8>)
    ensures
        bytes@ == packet_bytes(packet.kind(), packet.encoded()),
{
    let mut stream = BinaryStream::new();
    stream.write_packet_type(packet.get_type()).unwrap();
    packet.to_stream(&mut stream);

    let mut buffer = stream.get_buffer_vec();
    assert(buffer@ =~= payload(packet.kind(), packet.encoded()));
    proof {
        binary_stream::lemma_len_bytes_of_cast(buffer.len());
    }
    // The size comes first, so that the receiver knows how much to read.
    let size: u32 = #[verifier::truncate] (buffer.len() as u32);
    let mut header = endian::to_le_bytes(size as u128, 4);
    header.append(&mut buffer);
    header
}

/// The kind of a packet without its size, and a stream that reads its content.
pub fn deconstruct_bantam_packet(bytes: Vec<u8>) -> (result: (BantamPacketType, BinaryStream))
    requires
        bytes@.len() > 0,
        BantamPacketType::type_of(bytes@[0]) is Some,
    ensures
        BantamPacketType::type_of(bytes@[0]) == Some(result.0),
        result.1.mode is Read,
        result.1@ == bytes@.skip(1),
{
    let mut stream = BinaryStream::from_bytes(bytes.as_slice());
    let packet_type = stream.read_packet_type::<BantamPacketType>().unwrap();
    (packet_type, stream)
}

/// Takes the size from the front of the first segment of a packet.
pub fn check_first_packet_segment(buffer: &mut Vec<u8>) -> (size: usize)
    requires
        old(buffer)@.len() >= 4,
    ensures
        size == binary_stream::announced_len(old(buffer)@),
        final(buffer)@ == old(buffer)@.skip(4),
{
    let mut size_bytes = [0u8; 4];
    let mut i: usize = 0;
    while i < 4
        invariant
            i <= 4,
            old(buffer)@.len() >= 4,
            buffer@ =~= old(buffer)@.skip(i as int),
            forall|j: int| 0 <= j < i ==> size_bytes@[j] == old(buffer)@[j],
        decreases 4 - i,
    {
        size_bytes[i] = buffer.remove(0);
        i = i + 1;
    }
    proof {
        assert(size_bytes@ =~= old(buffer)@.take(4));
        endian::lemma_le_value_bound(size_bytes@);
        endian::lemma_le_bounds();
    }
    endian::from_le_bytes(size_bytes.as_slice()) as u32 as usize
}

/// How far a packet has arrived.
#[derive(Debug, Clone, Copy, PartialEq, Eq, Structural)]
pub struct SegmentProgress {
    pub total_packet_size: usize,
    pub total_packet_bytes_received: usize,
}

/// Where the reading of a packet stands.
#[derive(Debug, Clone, Copy, PartialEq, Eq, Structural)]
pub enum SegmentState {
    /// Another segment has to be read.
    Reading(SegmentProgress),
    /// Nothing more has to be read. Holds the announced size; 0 where the first
    /// segment holds no packet.
    Done(usize),
    /// The connection took too long.
    TimedOut(BantamError),
    /// The connection failed.
    Failed,
}

/// What came of reading a segment.
pub enum SegmentEvent {
    Received(Vec<u8>),
    TimedOut,
    Failed,
}

/// Where reading stands when `first` has been read, and `later` after it.
pub open spec fn segment_state(first: Seq<u8>, later: Seq<u8>) -> SegmentState {
    if first.len() <= 4 {
        SegmentState::Done(0)
    } else {
        progress_state(binary_stream::announced_len(first), (first.len() - 4 + later.len()) as nat)
    }
}

/// Where reading stands when `received` of `total` bytes have arrived.
pub open spec fn progress_state(total: nat, received: nat) -> SegmentState {
    if received < total {
        SegmentState::Reading(
            SegmentProgress {
                total_packet_size: total as usize,
                total_packet_bytes_received: received as usize,
            },
        )
    } else {
        SegmentState::Done(total as usize)
    }
}

/// Begins with the first segment of a packet, and takes the size from it. A
/// segment of at most four bytes holds a size at most, and so no packet.
pub fn read_segments(bytes_received: usize, buffer_vec: &mut Vec<u8>) -> (state: SegmentState)
    requires
        bytes_received > 4 ==> old(buffer_vec)@.len() >= 4,
    ensures
        bytes_received <= 4 ==> {
            &&& state == SegmentState::Done(0)
            &&& final(buffer_vec)@ == old(buffer_vec)@
        },
        bytes_received > 4 ==> {
            &&& state == progress_state(
                binary_stream::announced_len(old(buffer_vec)@),
                (bytes_received - 4) as nat,
            )
            &&& final(buffer_vec)@ == old(buffer_vec)@.skip(4)
        },
        bytes_received == old(buffer_vec)@.len() ==> state == segment_state(
            old(buffer_vec)@,
            Seq::empty(),
        ),
{
    if bytes_received <= 4 {
        return SegmentState::Done(0);
    }
    let total_packet_size = check_first_packet_segment(buffer_vec);
    let total_packet_bytes_received = bytes_received - 4;
    if total_packet_bytes_received < total_packet_size {
        SegmentState::Reading(SegmentProgress { total_packet_size, total_packet_bytes_received })
    } else {
        SegmentState::Done(total_packet_size)
    }
}

/// Goes on with what came of reading the next segment.
pub fn resume_segments(
    progress: SegmentProgress,
    buffer_vec: &mut Vec<u8>,
    event: SegmentEvent,
) -> (state: SegmentState)
    requires
        event matches SegmentEvent::Received(segment) ==> progress.total_packet_bytes_received
            + segment@.len() <= usize::MAX,
    ensures
        match event {
            SegmentEvent::Received(segment) => {
                &&& final(buffer_vec)@ == old(buffer_vec)@ + segment@
                &&& state == progress_state(
                    progress.total_packet_size as nat,
                    progress.total_packet_bytes_received as nat + segment@.len(),
                )
            },
            SegmentEvent::TimedOut => {
                &&& final(buffer_vec)@ == old(buffer_vec)@
                &&& state == SegmentState::TimedOut(BantamError::ReadTimeout)
            },
            SegmentEvent::Failed => {
                &&& final(buffer_vec)@ == old(buffer_vec)@
                &&& state == SegmentState::Failed
            },
        },
{
    match event {
        SegmentEvent::Received(segment) => {
            let bytes_received = segment.len();
            let mut segment = segment;
            buffer_vec.append(&mut segment);
            let total_packet_bytes_received = progress.total_packet_bytes_received + bytes_received;
            let total_packet_size = progress.total_packet_size;
            if total_packet_bytes_received < total_packet_size {
                SegmentState::Reading(
                    SegmentProgress { total_packet_size, total_packet_bytes_received },
                )
            } else {
                SegmentState::Done(total_packet_size)
            }
        },
        SegmentEvent::TimedOut => SegmentState::TimedOut(BantamError::ReadTimeout),
        SegmentEvent::Failed => SegmentState::Failed,
    }
}

} // verus!
