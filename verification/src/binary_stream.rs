//! A buffer of bytes that is written at its back or read from its front.

use std::collections::VecDeque;

use vstd::prelude::*;

use crate::endian;
use crate::packet;
use crate::packet::{PacketType, Serializable};

verus! {

/// What a stream can be used for.
#[derive(Debug, Clone, Copy, PartialEq, Eq, Structural)]
pub enum BinaryStreamMode {
    Read,
    Write,
}

/// Why a stream refuses an operation: it is in the other mode.
#[derive(Debug, Clone, Copy, PartialEq, Eq, Structural)]
pub enum StreamError {
    /// A write to a stream that is read.
    ReadOnly,
    /// A read from a stream that is written.
    Writing,
}

impl StreamError {
    /// The words for a log or an error message.
    pub fn message(&self) -> (text: &'static str)
        ensures
            text@ == match self {
                StreamError::ReadOnly => "Stream is in read-only mode"@,
                StreamError::Writing => "Stream is in writing mode"@,
            },
    {
        match self {
            StreamError::ReadOnly => "Stream is in read-only mode",
            StreamError::Writing => "Stream is in writing mode",
        }
    }
}

/// A queue of bytes with a mode. Its view is the bytes that it holds, front
/// first.
pub struct BinaryStream {
    pub mode: BinaryStreamMode,
    pub buffer: VecDeque<u8>,
}

impl View for BinaryStream {
    type V = Seq<u8>;

    open spec fn view(&self) -> Seq<u8> {
        self.buffer@
    }
}

/// The first `N` items of `itr`, filled up with the type's default value.
fn collect_array<T: Default + Copy, const N: usize>(itr: Vec<T>) -> (res: [T; N])
    ensures
        forall|i: int| 0 <= i < N && i < itr@.len() ==> res@[i] == itr@[i],
        forall|i: int|
            itr@.len() <= i < N ==> call_ensures(T::default, (), #[trigger] res@[i]),
{
    let mut res = [T::default(); N];
    let mut i: usize = 0;
    while i < N && i < itr.len()
        invariant
            i <= N,
            i <= itr@.len(),
            forall|j: int| 0 <= j < i ==> res@[j] == itr@[j],
            forall|j: int| i <= j < N ==> call_ensures(T::default, (), #[trigger] res@[j]),
        decreases N - i,
    {
        res[i] = itr[i];
        i = i + 1;
    }
    res
}

/// The string whose UTF-8 encoding is `bytes`, if they are one. Calls
/// `String::from_utf8` of the standard library, which is trusted to accept
/// exactly the valid UTF-8 sequences and to decode them.
#[verifier::external_body]
fn string_from_utf8(bytes: Vec<u8>) -> (text: Option<String>)
    ensures
        text is Some <==> vstd::utf8::valid_utf8(bytes@),
        text matches Some(s) ==> s@ == vstd::utf8::decode_utf8(bytes@),
{
    String::from_utf8(bytes).ok()
}

/// The length field of a sequence: its length in four bytes, without the digits
/// that they cannot hold.
pub open spec fn len_bytes(len: nat) -> Seq<u8> {
    endian::le_bytes(len, 4)
}

/// The length that the four bytes at the front of `bytes` announce.
pub open spec fn announced_len(bytes: Seq<u8>) -> nat {
    endian::le_value(bytes.take(4))
}

/// The bytes of a string or of a byte vector: its length, then its content.
pub open spec fn counted(content: Seq<u8>) -> Seq<u8> {
    len_bytes(content.len()) + content
}

/// Whether `bytes` begin with a length and at least as many bytes as it
/// announces.
pub open spec fn counted_readable(bytes: Seq<u8>) -> bool {
    bytes.len() >= 4 && bytes.len() - 4 >= announced_len(bytes)
}

/// The content that a length at the front of `bytes` announces.
pub open spec fn counted_content(bytes: Seq<u8>) -> Seq<u8> {
    bytes.skip(4).take(announced_len(bytes) as int)
}

/// The length that the four bytes from `start` on announce.
pub fn announced_at(bytes: &Vec<u8>, start: usize) -> (len: usize)
    requires
        start + 4 <= bytes.len(),
    ensures
        len == announced_len(bytes@.skip(start as int)),
        len <= u32::MAX,
{
    let head: [u8; 4] = [bytes[start], bytes[start + 1], bytes[start + 2], bytes[start + 3]];
    proof {
        assert(head@ =~= bytes@.skip(start as int).take(4));
        endian::lemma_le_value_bound(head@);
        endian::lemma_le_bounds();
    }
    endian::from_le_bytes(head.as_slice()) as u32 as usize
}

/// A cast to 32 bits keeps what four bytes can hold.
pub(crate) proof fn lemma_len_bytes_of_cast(len: usize)
    ensures
        len_bytes((len as u32) as nat) == len_bytes(len as nat),
{
    let wide = len as u64;
    assert((wide as u32) as u64 == wide % 0x1_0000_0000) by (bit_vector);
    endian::lemma_le_bytes_truncate(len as nat, 4);
    endian::lemma_le_bounds();
}

impl BinaryStream {
    /// What an attempt to write `bytes` does to a stream: they are appended in
    /// writing mode, and refused in reading mode.
    pub open spec fn writes(
        self,
        after: BinaryStream,
        bytes: Seq<u8>,
        result: Result<(), StreamError>,
    ) -> bool {
        &&& after.mode == self.mode
        &&& match self.mode {
            BinaryStreamMode::Write => result is Ok && after@ == self@ + bytes,
            BinaryStreamMode::Read => result == Err::<(), _>(StreamError::ReadOnly) && after@
                == self@,
        }
    }

    /// What an attempt to read from a stream does to it: `count` bytes leave its
    /// front in reading mode, and nothing happens in writing mode.
    pub open spec fn reads<T>(
        self,
        after: BinaryStream,
        count: nat,
        result: Result<T, StreamError>,
    ) -> bool {
        &&& after.mode == self.mode
        &&& match self.mode {
            BinaryStreamMode::Read => result is Ok && after@ == self@.skip(count as int),
            BinaryStreamMode::Write => result == Err::<T, _>(StreamError::Writing) && after@
                == self@,
        }
    }

    /// Appends one byte.
    pub fn write_buffer_single(&mut self, byte: u8) -> (result: Result<(), StreamError>)
        ensures
            old(self).writes(*final(self), seq![byte], result),
    {
        match self.mode {
            BinaryStreamMode::Read => Err(StreamError::ReadOnly),
            BinaryStreamMode::Write => {
                self.buffer.push_back(byte);
                assert(self@ =~= old(self)@ + seq![byte]);
                Ok(())
            },
        }
    }

    /// Appends `bytes`.
    pub fn write_buffer(&mut self, bytes: &Vec<u8>) -> (result: Result<(), StreamError>)
        ensures
            old(self).writes(*final(self), bytes@, result),
    {
        match self.mode {
            BinaryStreamMode::Read => Err(StreamError::ReadOnly),
            BinaryStreamMode::Write => {
                let mut i: usize = 0;
                while i < bytes.len()
                    invariant
                        i <= bytes@.len(),
                        self.mode == old(self).mode,
                        self@ =~= old(self)@ + bytes@.take(i as int),
                    decreases bytes@.len() - i,
                {
                    self.buffer.push_back(bytes[i]);
                    i = i + 1;
                }
                assert(bytes@.take(i as int) =~= bytes@);
                Ok(())
            },
        }
    }

    /// Takes one byte from the front.
    pub fn read_buffer_single(&mut self) -> (result: Result<u8, StreamError>)
        requires
            old(self).mode is Read ==> old(self)@.len() >= 1,
        ensures
            old(self).reads(*final(self), 1, result),
            result matches Ok(byte) ==> byte == old(self)@[0],
    {
        match self.mode {
            BinaryStreamMode::Write => Err(StreamError::Writing),
            BinaryStreamMode::Read => {
                let byte = self.buffer.pop_front().unwrap();
                assert(self@ =~= old(self)@.skip(1));
                Ok(byte)
            },
        }
    }

    /// Takes `count` bytes from the front.
    pub fn read_buffer(&mut self, count: usize) -> (result: Result<Vec<u8>, StreamError>)
        requires
            old(self).mode is Read ==> old(self)@.len() >= count,
        ensures
            old(self).reads(*final(self), count as nat, result),
            result matches Ok(bytes) ==> bytes@ == old(self)@.take(count as int),
    {
        match self.mode {
            BinaryStreamMode::Write => Err(StreamError::Writing),
            BinaryStreamMode::Read => {
                let mut bytes: Vec<u8> = vec![];
                let mut i: usize = 0;
                while i < count
                    invariant
                        i <= count <= old(self)@.len(),
                        self.mode == old(self).mode,
                        self@ =~= old(self)@.skip(i as int),
                        bytes@ =~= old(self)@.take(i as int),
                    decreases count - i,
                {
                    bytes.push(self.buffer.pop_front().unwrap());
                    i = i + 1;
                }
                Ok(bytes)
            },
        }
    }

    /// An empty stream to write to.
    pub fn new() -> (stream: BinaryStream)
        ensures
            stream.mode is Write,
            stream@ == Seq::<u8>::empty(),
    {
        BinaryStream::with_capacity(None)
    }

    /// An empty stream to write to, with room for the expected number of bytes.
    pub fn with_capacity(expected_size: Option<usize>) -> (stream: BinaryStream)
        requires
            expected_size matches Some(size) ==> size <= isize::MAX,
        ensures
            stream.mode is Write,
            stream@ == Seq::<u8>::empty(),
    {
        let buffer = match expected_size {
            Some(size) => VecDeque::with_capacity(size),
            None => VecDeque::new(),
        };
        BinaryStream { mode: BinaryStreamMode::Write, buffer }
    }

    /// A stream that reads `buffer` from its front.
    pub fn from_buffer(buffer: VecDeque<u8>) -> (stream: BinaryStream)
        ensures
            stream.mode is Read,
            stream@ == buffer@,
    {
        BinaryStream { mode: BinaryStreamMode::Read, buffer }
    }

    /// A stream that reads a copy of `bytes`.
    pub fn from_bytes(bytes: &[u8]) -> (stream: BinaryStream)
        ensures
            stream.mode is Read,
            stream@ == bytes@,
    {
        let mut buffer: VecDeque<u8> = VecDeque::new();
        let mut i: usize = 0;
        while i < bytes.len()
            invariant
                i <= bytes@.len(),
                buffer@ =~= bytes@.take(i as int),
            decreases bytes@.len() - i,
        {
            buffer.push_back(bytes[i]);
            i = i + 1;
        }
        assert(bytes@.take(i as int) =~= bytes@);
        BinaryStream { mode: BinaryStreamMode::Read, buffer }
    }

    /// How many bytes the stream holds.
    pub fn size(&self) -> (size: usize)
        ensures
            size == self@.len(),
    {
        self.buffer.len()
    }

    /// The bytes that the stream holds, as a queue.
    pub fn get_buffer(self) -> (buffer: VecDeque<u8>)
        ensures
            buffer@ == self@,
    {
        self.buffer
    }

    /// The bytes that the stream holds, as a vector.
    pub fn get_buffer_vec(self) -> (bytes: Vec<u8>)
        ensures
            bytes@ == self@,
    {
        let mut bytes: Vec<u8> = Vec::new();
        let mut i: usize = 0;
        while i < self.buffer.len()
            invariant
                i <= self@.len(),
                bytes@ =~= self@.take(i as int),
            decreases self@.len() - i,
        {
            bytes.push(self.buffer[i]);
            i = i + 1;
        }
        assert(self@.take(i as int) =~= self@);
        bytes
    }

    /// Appends one byte: 1 for `true`, 0 for `false`.
    pub fn write_bool(&mut self, val: bool) -> (result: Result<(), StreamError>)
        ensures
            old(self).writes(
                *final(self),
                seq![if val {
                    1u8
                } else {
                    0u8
                }],
                result,
            ),
    {
        self.write_buffer_single(
            if val {
                1
            } else {
                0
            },
        )
    }

    /// Appends two bytes, least significant first.
    pub fn write_u16(&mut self, val: u16) -> (result: Result<(), StreamError>)
        ensures
            old(self).writes(*final(self), endian::le_bytes(val as nat, 2), result),
    {
        self.write_buffer(&endian::to_le_bytes(val as u128, 2))
    }

    /// Appends four bytes, least significant first.
    pub fn write_u32(&mut self, val: u32) -> (result: Result<(), StreamError>)
        ensures
            old(self).writes(*final(self), endian::le_bytes(val as nat, 4), result),
    {
        self.write_buffer(&endian::to_le_bytes(val as u128, 4))
    }

    /// Appends eight bytes, least significant first.
    pub fn write_u64(&mut self, val: u64) -> (result: Result<(), StreamError>)
        ensures
            old(self).writes(*final(self), endian::le_bytes(val as nat, 8), result),
    {
        self.write_buffer(&endian::to_le_bytes(val as u128, 8))
    }

    /// Appends sixteen bytes, least significant first.
    pub fn write_u128(&mut self, val: u128) -> (result: Result<(), StreamError>)
        ensures
            old(self).writes(*final(self), endian::le_bytes(val as nat, 16), result),
    {
        self.write_buffer(&endian::to_le_bytes(val, 16))
    }

    /// Appends the length of the UTF-8 encoding of `val`, then the encoding.
    pub fn write_string(&mut self, val: &String) -> (result: Result<(), StreamError>)
        requires
            old(self).mode is Write,
        ensures
            old(self).writes(*final(self), counted(vstd::utf8::encode_utf8(val@)), result),
    {
        let string_bytes = val.as_str().as_bytes_vec();
        self.write_byte_vec(&string_bytes)
    }

    /// Appends the length of `val`, then its bytes.
    pub fn write_byte_vec(&mut self, val: &Vec<u8>) -> (result: Result<(), StreamError>)
        requires
            old(self).mode is Write,
        ensures
            old(self).writes(*final(self), counted(val@), result),
    {
        proof {
            lemma_len_bytes_of_cast(val.len());
        }
        self.write_u32(#[verifier::truncate] (val.len() as u32)).unwrap();
        let result = self.write_buffer(val);
        assert(self@ =~= old(self)@ + counted(val@));
        result
    }

    /// Appends the length of `val`, then its items.
    pub fn write_vec<T: Serializable>(&mut self, val: &Vec<T>) -> (result: Result<(), StreamError>)
        ensures
            old(self).writes(
                *final(self),
                len_bytes(val@.len()) + packet::items_encoded(val@),
                result,
            ),
    {
        proof {
            lemma_len_bytes_of_cast(val.len());
        }
        match self.write_u32(#[verifier::truncate] (val.len() as u32)) {
            Err(e) => Err(e),
            Ok(()) => {
                let ghost head = self@;
                let mut i: usize = 0;
                while i < val.len()
                    invariant
                        i <= val@.len(),
                        self.mode is Write,
                        self@ =~= head + packet::items_encoded(val@.take(i as int)),
                    decreases val@.len() - i,
                {
                    val[i].to_stream(self);
                    proof {
                        let longer = val@.take(i + 1);
                        assert(longer.drop_last() =~= val@.take(i as int));
                        assert(longer.last() == val@[i as int]);
                    }
                    i = i + 1;
                }
                assert(val@.take(i as int) =~= val@);
                assert(self@ =~= old(self)@ + (len_bytes(val@.len()) + packet::items_encoded(val@)));
                Ok(())
            },
        }
    }

    /// Appends the byte that stands for a kind of packet.
    pub fn write_packet_type<T: PacketType>(&mut self, val: T) -> (result: Result<(), StreamError>)
        ensures
            old(self).writes(*final(self), seq![val.byte_of()], result),
    {
        self.write_buffer_single(val.to_byte())
    }

    /// Takes one byte and tells whether it is 1.
    pub fn read_bool(&mut self) -> (result: Result<bool, StreamError>)
        requires
            old(self).mode is Read ==> old(self)@.len() >= 1,
        ensures
            old(self).reads(*final(self), 1, result),
            result matches Ok(val) ==> val == (old(self)@[0] == 1),
    {
        match self.read_buffer_single() {
            Ok(byte) => Ok(byte == 1),
            Err(e) => Err(e),
        }
    }

    /// Takes two bytes, least significant first.
    pub fn read_u16(&mut self) -> (result: Result<u16, StreamError>)
        requires
            old(self).mode is Read ==> old(self)@.len() >= 2,
        ensures
            old(self).reads(*final(self), 2, result),
            result matches Ok(val) ==> val == endian::le_value(old(self)@.take(2)),
    {
        match self.read_buffer(2) {
            Err(e) => Err(e),
            Ok(buffer) => {
                let bytes: [u8; 2] = collect_array(buffer);
                proof {
                    assert(bytes@ =~= old(self)@.take(2));
                    endian::lemma_le_value_bound(bytes@);
                    endian::lemma_le_bounds();
                }
                Ok(endian::from_le_bytes(bytes.as_slice()) as u16)
            },
        }
    }

    /// Takes four bytes, least significant first.
    pub fn read_u32(&mut self) -> (result: Result<u32, StreamError>)
        requires
            old(self).mode is Read ==> old(self)@.len() >= 4,
        ensures
            old(self).reads(*final(self), 4, result),
            result matches Ok(val) ==> val == endian::le_value(old(self)@.take(4)),
    {
        match self.read_buffer(4) {
            Err(e) => Err(e),
            Ok(buffer) => {
                let bytes: [u8; 4] = collect_array(buffer);
                proof {
                    assert(bytes@ =~= old(self)@.take(4));
                    endian::lemma_le_value_bound(bytes@);
                    endian::lemma_le_bounds();
                }
                Ok(endian::from_le_bytes(bytes.as_slice()) as u32)
            },
        }
    }

    /// Takes eight bytes, least significant first.
    pub fn read_u64(&mut self) -> (result: Result<u64, StreamError>)
        requires
            old(self).mode is Read ==> old(self)@.len() >= 8,
        ensures
            old(self).reads(*final(self), 8, result),
            result matches Ok(val) ==> val == endian::le_value(old(self)@.take(8)),
    {
        match self.read_buffer(8) {
            Err(e) => Err(e),
            Ok(buffer) => {
                let bytes: [u8; 8] = collect_array(buffer);
                proof {
                    assert(bytes@ =~= old(self)@.take(8));
                    endian::lemma_le_value_bound(bytes@);
                    endian::lemma_le_bounds();
                }
                Ok(endian::from_le_bytes(bytes.as_slice()) as u64)
            },
        }
    }

    /// Takes sixteen bytes, least significant first.
    pub fn read_u128(&mut self) -> (result: Result<u128, StreamError>)
        requires
            old(self).mode is Read ==> old(self)@.len() >= 16,
        ensures
            old(self).reads(*final(self), 16, result),
            result matches Ok(val) ==> val == endian::le_value(old(self)@.take(16)),
    {
        match self.read_buffer(16) {
            Err(e) => Err(e),
            Ok(buffer) => {
                let bytes: [u8; 16] = collect_array(buffer);
                assert(bytes@ =~= old(self)@.take(16));
                Ok(endian::from_le_bytes(bytes.as_slice()))
            },
        }
    }

    /// Takes a length and as many bytes, and decodes them from UTF-8.
    pub fn read_string(&mut self) -> (result: Result<String, StreamError>)
        requires
            old(self).mode is Read ==> counted_readable(old(self)@) && vstd::utf8::valid_utf8(
                counted_content(old(self)@),
            ),
        ensures
            old(self).reads(*final(self), 4 + announced_len(old(self)@), result),
            result matches Ok(val) ==> val@ == vstd::utf8::decode_utf8(
                counted_content(old(self)@),
            ),
    {
        match self.read_byte_vec() {
            Err(e) => Err(e),
            Ok(bytes) => Ok(string_from_utf8(bytes).unwrap()),
        }
    }

    /// Takes a length and as many bytes.
    pub fn read_byte_vec(&mut self) -> (result: Result<Vec<u8>, StreamError>)
        requires
            old(self).mode is Read ==> counted_readable(old(self)@),
        ensures
            old(self).reads(*final(self), 4 + announced_len(old(self)@), result),
            result matches Ok(val) ==> val@ == counted_content(old(self)@),
    {
        match self.read_u32() {
            Err(e) => Err(e),
            Ok(vec_size) => {
                let result = self.read_buffer(vec_size as usize);
                assert(self@ =~= old(self)@.skip(4 + announced_len(old(self)@) as int));
                result
            },
        }
    }

    /// Takes a length and as many items.
    pub fn read_vec<T: Serializable>(&mut self) -> (result: Result<Vec<T>, StreamError>)
        requires
            old(self).mode is Read ==> old(self)@.len() >= 4 && packet::items_readable::<T>(
                old(self)@.skip(4),
                announced_len(old(self)@),
            ),
        ensures
            old(self).reads(
                *final(self),
                4 + packet::items_len::<T>(old(self)@.skip(4), announced_len(old(self)@)),
                result,
            ),
            result matches Ok(items) ==> {
                &&& items@.len() == announced_len(old(self)@)
                &&& packet::items_read_from(items@, old(self)@.skip(4))
                &&& packet::items_len::<T>(old(self)@.skip(4), items@.len()) <= old(
                    self,
                )@.len() - 4
            },
    {
        match self.read_u32() {
            Err(e) => Err(e),
            Ok(vec_size) => {
                let ghost bytes = old(self)@.skip(4);
                let mut vec: Vec<T> = Vec::new();
                let mut i: u32 = 0;
                while i < vec_size
                    invariant
                        i <= vec_size,
                        vec@.len() == i,
                        packet::items_readable::<T>(bytes, vec_size as nat),
                        self.mode is Read,
                        packet::items_len::<T>(bytes, i as nat) <= bytes.len(),
                        self@ == packet::from_item::<T>(bytes, i as nat),
                        packet::items_read_from(vec@, bytes),
                    decreases vec_size - i,
                {
                    let ghost start = packet::items_len::<T>(bytes, i as nat);
                    let ghost before = vec@;
                    let item = T::from_stream(self);
                    vec.push(item);
                    i = i + 1;
                    proof {
                        let taken = T::read_len(bytes.skip(start as int));
                        assert(packet::items_len::<T>(bytes, i as nat) == start + taken);
                        assert(self@ =~= bytes.skip((start + taken) as int));
                        assert forall|j: int| 0 <= j < vec@.len() implies (
                        #[trigger] vec@[j]).read_from(packet::from_item::<T>(bytes, j as nat)) by {
                            if j < before.len() {
                                assert(vec@[j] == before[j]);
                            }
                        }
                    }
                }
                assert(self@ =~= old(self)@.skip(
                    4 + packet::items_len::<T>(bytes, vec_size as nat) as int,
                ));
                Ok(vec)
            },
        }
    }

    /// Takes one byte and gives the kind of packet that it stands for.
    pub fn read_packet_type<T: PacketType>(&mut self) -> (result: Result<T, StreamError>)
        requires
            old(self).mode is Read ==> old(self)@.len() >= 1 && T::type_of(old(self)@[0]) is Some,
        ensures
            old(self).reads(*final(self), 1, result),
            result matches Ok(kind) ==> T::type_of(old(self)@[0]) == Some(kind),
    {
        match self.read_buffer_single() {
            Err(e) => Err(e),
            Ok(byte) => Ok(T::from_byte(byte).unwrap()),
        }
    }
}

} // verus!
