//! Packets: their frames, and the fields that they are read from and written to.
use crate::varint::{self, write_varint, VarIntOutcome};
use vstd::prelude::*;
use vstd::slice::slice_subrange;
use vstd::string::*;
use vstd::utf8;

verus! {

/// What can be wrong with the bytes of a packet.
#[derive(Debug, Clone, PartialEq, Eq)]
pub enum ProtocolError {
    UnexpectedEof,
    VarIntTooLong,
    NegativePacketLength,
    PacketTooLarge { length: usize, limit: usize },
    InvalidUtf8,
    StringTooLong { length: usize, limit: usize },
    UnexpectedPacketId { actual: i32, expected: i32 },
    InvalidValue(&'static str),
}

/// A packet: its kind and its contents.
#[derive(Debug, Clone, PartialEq, Eq)]
pub struct Packet {
    pub id: i32,
    pub payload: Vec<u8>,
}

/// A universally unique identifier: sixteen bytes.
#[derive(Debug, Clone, Copy, PartialEq, Eq)]
pub struct Uuid {
    bytes: [u8; 16],
}

impl View for Uuid {
    type V = Seq<u8>;

    closed spec fn view(&self) -> Seq<u8> {
        self.bytes@
    }
}

impl Uuid {
    pub fn from_bytes(bytes: [u8; 16]) -> (uuid: Uuid)
        ensures
            uuid@ == bytes@,
    {
        Uuid { bytes }
    }

    pub fn as_bytes(&self) -> (bytes: &[u8; 16])
        ensures
            bytes@ == self@,
    {
        &self.bytes
    }
}

/// Calls `std::str::from_utf8`. It succeeds exactly on well-formed UTF-8, and then the
/// text is the one whose encoding the bytes are.
#[verifier::external_body]
fn text_from_utf8(bytes: &[u8]) -> (text: Option<&str>)
    ensures
        text is Some <==> utf8::valid_utf8(bytes@),
        text matches Some(t) ==> utf8::encode_utf8(t@) == bytes@,
{
    std::str::from_utf8(bytes).ok()
}

/// The number that bytes stand for, most significant first.
pub open spec fn big_endian_value(bytes: Seq<u8>) -> nat
    decreases bytes.len(),
{
    if bytes.len() == 0 {
        0
    } else {
        big_endian_value(bytes.drop_last()) * 256 + bytes.last() as nat
    }
}

/// The low `count` bytes of a number, most significant first.
pub open spec fn big_endian_bytes(value: nat, count: nat) -> Seq<u8>
    decreases count,
{
    if count == 0 {
        Seq::empty()
    } else {
        big_endian_bytes(value / 256, (count - 1) as nat).push((value % 256) as u8)
    }
}

/// Writing the number that bytes stand for gives the bytes back.
pub proof fn lemma_big_endian_round_trip(bytes: Seq<u8>)
    ensures
        big_endian_bytes(big_endian_value(bytes), bytes.len()) == bytes,
    decreases bytes.len(),
{
    if bytes.len() > 0 {
        lemma_big_endian_round_trip(bytes.drop_last());
    }
}

/// Eight bytes that are read as a signed number are the bytes of that number.
pub proof fn lemma_number_keeps_its_bytes(bytes: Seq<u8>, number: i64)
    requires
        bytes.len() == 8,
        i64_field(bytes) == Field::Read(number, 8),
    ensures
        big_endian_bytes((number as u64) as nat, 8) == bytes,
{
    reveal_with_fuel(big_endian_value, 9);
    let value = big_endian_value(bytes);
    let word = value as u64;
    assert((word as i64) as u64 == word) by (bit_vector);
    lemma_big_endian_round_trip(bytes);
}

pub proof fn lemma_big_endian_two(value: u16)
    ensures
        big_endian_bytes(value as nat, 2) == seq![(value / 256) as u8, (value % 256) as u8],
        big_endian_value(big_endian_bytes(value as nat, 2)) == value,
{
    reveal_with_fuel(big_endian_bytes, 3);
    reveal_with_fuel(big_endian_value, 3);
}

/// Reading a field from the front of some bytes: the value and how many bytes it takes,
/// or what is wrong.
pub enum Field<T> {
    Read(T, nat),
    Bad(ProtocolError),
}

pub open spec fn varint_field(bytes: Seq<u8>) -> Field<i32> {
    match varint::decoded_varint(bytes) {
        VarIntOutcome::Complete(value, n) => Field::Read(value, n),
        VarIntOutcome::Truncated => Field::Bad(ProtocolError::UnexpectedEof),
        VarIntOutcome::TooLong => Field::Bad(ProtocolError::VarIntTooLong),
    }
}

/// How many bytes an attempt to read a variable-length integer uses up.
pub open spec fn varint_used(bytes: Seq<u8>) -> nat {
    match varint::decoded_varint(bytes) {
        VarIntOutcome::Complete(value, n) => n,
        VarIntOutcome::Truncated => bytes.len(),
        VarIntOutcome::TooLong => 5,
    }
}

pub open spec fn bytes_field(bytes: Seq<u8>, length: nat) -> Field<Seq<u8>> {
    if length <= bytes.len() {
        Field::Read(bytes.take(length as int), length)
    } else {
        Field::Bad(ProtocolError::UnexpectedEof)
    }
}

/// A string: its length in bytes, at most `limit`, and its UTF-8 bytes.
pub open spec fn string_field(bytes: Seq<u8>, limit: usize) -> Field<Seq<char>> {
    match varint_field(bytes) {
        Field::Bad(error) => Field::Bad(error),
        Field::Read(length, n) => if length < 0 {
            Field::Bad(ProtocolError::InvalidValue("negative string length"))
        } else if length > limit {
            Field::Bad(ProtocolError::StringTooLong { length: length as usize, limit })
        } else {
            match bytes_field(bytes.skip(n as int), length as nat) {
                Field::Bad(error) => Field::Bad(error),
                Field::Read(text, m) => if utf8::valid_utf8(text) {
                    Field::Read(utf8::decode_utf8(text), n + m)
                } else {
                    Field::Bad(ProtocolError::InvalidUtf8)
                },
            }
        },
    }
}

/// How many bytes an attempt to read a string uses up.
pub open spec fn string_used(bytes: Seq<u8>, limit: usize) -> nat {
    match varint_field(bytes) {
        Field::Read(length, n) if 0 <= length <= limit && length <= bytes.len() - n => n
            + length as nat,
        _ => varint_used(bytes),
    }
}

pub open spec fn u16_field(bytes: Seq<u8>) -> Field<u16> {
    match bytes_field(bytes, 2) {
        Field::Bad(error) => Field::Bad(error),
        Field::Read(b, n) => Field::Read(big_endian_value(b) as u16, n),
    }
}

pub open spec fn i64_field(bytes: Seq<u8>) -> Field<i64> {
    match bytes_field(bytes, 8) {
        Field::Bad(error) => Field::Bad(error),
        Field::Read(b, n) => Field::Read((big_endian_value(b) as u64) as i64, n),
    }
}

/// The text as a string field.
pub open spec fn encoded_string(text: Seq<char>) -> Seq<u8> {
    varint::encoded_varint(utf8::encode_utf8(text).len() as i32) + utf8::encode_utf8(text)
}

/// A packet's id and contents, behind their common length.
pub open spec fn encoded_frame(id: i32, payload: Seq<u8>) -> Seq<u8> {
    let body = varint::encoded_varint(id) + payload;
    varint::encoded_varint(body.len() as i32) + body
}

/// A string field of at most `limit` bytes is read back as the text that was written.
pub proof fn lemma_string_round_trip(text: Seq<char>, tail: Seq<u8>, limit: usize)
    requires
        utf8::encode_utf8(text).len() <= limit,
        utf8::encode_utf8(text).len() <= i32::MAX,
    ensures
        string_field(encoded_string(text) + tail, limit) == Field::Read(
            text,
            encoded_string(text).len(),
        ),
{
    let bytes = utf8::encode_utf8(text);
    let length = bytes.len() as i32;
    let all = encoded_string(text) + tail;
    let head = varint::encoded_varint(length);
    assert(all =~= head + (bytes + tail));
    varint::lemma_varint_round_trip(length, bytes + tail);
    assert(all.skip(head.len() as int) =~= bytes + tail);
    assert((bytes + tail).take(bytes.len() as int) =~= bytes);
    utf8::encode_utf8_valid_utf8(text);
    utf8::encode_utf8_decode_utf8(text);
}

/// Appends a string field.
pub fn write_string(output: &mut Vec<u8>, value: &str)
    ensures
        final(output)@ == old(output)@ + encoded_string(value@),
{
    let bytes = value.as_bytes();
    write_varint(output, bytes.len() as i32);
    write_bytes(output, bytes);
}

/// Appends bytes as they are.
pub fn write_bytes(output: &mut Vec<u8>, bytes: &[u8])
    ensures
        final(output)@ == old(output)@ + bytes@,
{
    output.extend_from_slice(bytes);
}

/// Appends the two bytes of a number, most significant first.
pub fn write_u16(output: &mut Vec<u8>, value: u16)
    ensures
        final(output)@ == old(output)@ + big_endian_bytes(value as nat, 2),
{
    output.push((value / 256) as u8);
    output.push((value % 256) as u8);
    proof {
        lemma_big_endian_two(value);
    }
}

/// The eight bytes of a signed number, most significant first.
pub fn i64_to_bytes(value: i64) -> (bytes: Vec<u8>)
    ensures
        bytes@ == big_endian_bytes((value as u64) as nat, 8),
{
    let v: u64 = value as u64;
    let q1: u64 = v / 256;
    let q2: u64 = q1 / 256;
    let q3: u64 = q2 / 256;
    let q4: u64 = q3 / 256;
    let q5: u64 = q4 / 256;
    let q6: u64 = q5 / 256;
    let q7: u64 = q6 / 256;
    let mut bytes: Vec<u8> = Vec::new();
    bytes.push(q7 as u8);
    bytes.push((q6 % 256) as u8);
    bytes.push((q5 % 256) as u8);
    bytes.push((q4 % 256) as u8);
    bytes.push((q3 % 256) as u8);
    bytes.push((q2 % 256) as u8);
    bytes.push((q1 % 256) as u8);
    bytes.push((v % 256) as u8);
    proof {
        lemma_big_endian_step(v as nat, 8);
        lemma_big_endian_step(q1 as nat, 7);
        lemma_big_endian_step(q2 as nat, 6);
        lemma_big_endian_step(q3 as nat, 5);
        lemma_big_endian_step(q4 as nat, 4);
        lemma_big_endian_step(q5 as nat, 3);
        lemma_big_endian_step(q6 as nat, 2);
        lemma_big_endian_step(q7 as nat, 1);
        assert(q7 < 256);
        assert(big_endian_bytes(0, 0) == Seq::<u8>::empty());
        assert(bytes@ =~= big_endian_bytes(v as nat, 8));
    }
    bytes
}

proof fn lemma_big_endian_step(value: nat, count: nat)
    requires
        count > 0,
    ensures
        big_endian_bytes(value, count) == big_endian_bytes(value / 256, (count - 1) as nat).push(
            (value % 256) as u8,
        ),
        big_endian_bytes(value, 0) == Seq::<u8>::empty(),
{
}

/// Reads the fields of a packet one after the other.
pub struct PacketReader<'a> {
    bytes: &'a [u8],
    position: usize,
}

impl<'a> PacketReader<'a> {
    #[verifier::type_invariant]
    closed spec fn inv(self) -> bool {
        self.position <= self.bytes@.len()
    }

    /// All bytes, those already read among them.
    pub closed spec fn data(self) -> Seq<u8> {
        self.bytes@
    }

    /// How many bytes were read.
    pub closed spec fn at(self) -> nat {
        self.position as nat
    }

    /// The bytes that were not read yet.
    pub open spec fn rest(self) -> Seq<u8> {
        self.data().skip(self.at() as int)
    }

    /// Whether `self` is `before` with `used` more bytes read.
    pub open spec fn advanced(self, before: Self, used: nat) -> bool {
        self.data() == before.data() && self.at() == before.at() + used && self.at()
            <= self.data().len()
    }

    pub fn new(bytes: &'a [u8]) -> (reader: Self)
        ensures
            reader.data() == bytes@,
            reader.at() == 0,
            reader.rest() == bytes@,
    {
        PacketReader { bytes, position: 0 }
    }

    pub fn position(&self) -> (position: usize)
        ensures
            position == self.at(),
            position <= self.data().len(),
    {
        proof {
            use_type_invariant(self);
        }
        self.position
    }

    pub fn remaining(&self) -> (count: usize)
        ensures
            count == self.rest().len(),
    {
        proof {
            use_type_invariant(self);
        }
        self.bytes.len() - self.position
    }

    fn read_u8(&mut self) -> (outcome: Result<u8, ProtocolError>)
        ensures
            match outcome {
                Ok(byte) => old(self).rest().len() > 0 && byte == old(self).rest()[0] && final(self).advanced(*old(self), 1),
                Err(error) => error == ProtocolError::UnexpectedEof && old(self).rest().len() == 0
                    && final(self).advanced(*old(self), 0),
            },
    {
        proof {
            use_type_invariant(&*self);
        }
        if self.position >= self.bytes.len() {
            return Err(ProtocolError::UnexpectedEof);
        }
        let byte = self.bytes[self.position];
        self.position = self.position + 1;
        Ok(byte)
    }

    pub fn read_varint(&mut self) -> (outcome: Result<i32, ProtocolError>)
        ensures
            final(self).advanced(*old(self), varint_used(old(self).rest())),
            match outcome {
                Ok(value) => varint_field(old(self).rest()) == Field::Read(
                    value,
                    varint_used(old(self).rest()),
                ),
                Err(error) => varint_field(old(self).rest()) == Field::<i32>::Bad(error),
            },
    {
        let ghost rest = self.rest();
        let ghost start = *self;
        let mut result: u64 = 0;
        let mut weight: u64 = 1;
        let mut index: usize = 0;
        proof {
            use_type_invariant(&*self);
            varint::lemma_weights();
        }
        while index < 5
            invariant
                rest == start.rest(),
                self.advanced(start, index as nat),
                start.at() <= start.data().len(),
                index <= 5,
                index <= rest.len(),
                index <= varint::continued(rest),
                weight == varint::group_weight(index as nat),
                result == varint::groups_value(rest, index as nat),
                result < weight,
                varint::group_weight(0) == 1,
                varint::group_weight(1) == 128,
                varint::group_weight(2) == 16384,
                varint::group_weight(3) == 2097152,
                varint::group_weight(4) == 268435456,
                varint::group_weight(5) == 34359738368,
                start == *old(self),
            decreases 5 - index,
        {
            proof {
                varint::lemma_continued_bound(rest);
            }
            let byte = match self.read_u8() {
                Ok(byte) => byte,
                Err(error) => {
                    return Err(error);
                },
            };
            let group: u64 = (byte % 128) as u64;
            proof {
                varint::lemma_groups_value_extends(rest, index as nat);
                assert(group * weight <= 127 * weight) by (nonlinear_arith)
                    requires
                        group <= 127,
                ;
            }
            result = result + group * weight;
            if byte < 128 {
                proof {
                    varint::lemma_continued_is(rest, index as nat);
                }
                let low: u32 = (result % 0x1_0000_0000) as u32;
                return Ok(low as i32);
            }
            proof {
                assert forall|k: int| 0 <= k < index + 1 implies #[trigger] rest[k] >= 128 by {}
            }
            weight = weight * 128;
            index += 1;
        }
        Err(ProtocolError::VarIntTooLong)
    }

    fn read_bytes(&mut self, length: usize) -> (outcome: Result<&'a [u8], ProtocolError>)
        ensures
            match outcome {
                Ok(bytes) => bytes_field(old(self).rest(), length as nat) == Field::Read(
                    bytes@,
                    length as nat,
                ) && final(self).advanced(*old(self), length as nat),
                Err(error) => bytes_field(old(self).rest(), length as nat) == Field::<Seq<u8>>::Bad(
                    error,
                ) && final(self).advanced(*old(self), 0),
            },
    {
        proof {
            use_type_invariant(&*self);
        }
        if length > self.bytes.len() - self.position {
            return Err(ProtocolError::UnexpectedEof);
        }
        let end = self.position + length;
        let bytes = slice_subrange(self.bytes, self.position, end);
        assert(bytes@ =~= self.rest().take(length as int));
        self.position = end;
        Ok(bytes)
    }

    pub fn read_string(&mut self, max_bytes: usize) -> (outcome: Result<String, ProtocolError>)
        ensures
            final(self).advanced(*old(self), string_used(old(self).rest(), max_bytes)),
            match outcome {
                Ok(text) => string_field(old(self).rest(), max_bytes) == Field::Read(
                    text@,
                    string_used(old(self).rest(), max_bytes),
                ),
                Err(error) => string_field(old(self).rest(), max_bytes) == Field::<Seq<char>>::Bad(
                    error,
                ),
            },
    {
        let ghost rest = self.rest();
        proof {
            use_type_invariant(&*self);
        }
        let length: i32 = match self.read_varint() {
            Ok(length) => length,
            Err(error) => {
                return Err(error);
            },
        };
        if length < 0 {
            return Err(ProtocolError::InvalidValue("negative string length"));
        }
        let length = length as usize;
        if length > max_bytes {
            return Err(ProtocolError::StringTooLong { length, limit: max_bytes });
        }
        assert(self.rest() =~= rest.skip(varint_used(rest) as int));
        let bytes = match self.read_bytes(length) {
            Ok(bytes) => bytes,
            Err(error) => {
                return Err(error);
            },
        };
        match text_from_utf8(bytes) {
            Some(text) => {
                proof {
                    utf8::encode_utf8_decode_utf8(text@);
                }
                Ok(text.to_owned())
            },
            None => Err(ProtocolError::InvalidUtf8),
        }
    }

    pub fn read_uuid(&mut self) -> (outcome: Result<Uuid, ProtocolError>)
        ensures
            match outcome {
                Ok(uuid) => bytes_field(old(self).rest(), 16) == Field::Read(uuid@, 16)
                    && final(self).advanced(*old(self), 16),
                Err(error) => bytes_field(old(self).rest(), 16) == Field::<Seq<u8>>::Bad(error)
                    && final(self).advanced(*old(self), 0),
            },
    {
        let b = match self.read_bytes(16) {
            Ok(bytes) => bytes,
            Err(error) => {
                return Err(error);
            },
        };
        let bytes: [u8; 16] = [
            b[0],
            b[1],
            b[2],
            b[3],
            b[4],
            b[5],
            b[6],
            b[7],
            b[8],
            b[9],
            b[10],
            b[11],
            b[12],
            b[13],
            b[14],
            b[15],
        ];
        assert(bytes@ =~= b@);
        Ok(Uuid::from_bytes(bytes))
    }

    pub fn read_u16(&mut self) -> (outcome: Result<u16, ProtocolError>)
        ensures
            match outcome {
                Ok(value) => u16_field(old(self).rest()) == Field::Read(value, 2) && final(self).advanced(*old(self), 2),
                Err(error) => u16_field(old(self).rest()) == Field::<u16>::Bad(error) && final(self).advanced(*old(self), 0),
            },
    {
        let b = match self.read_bytes(2) {
            Ok(bytes) => bytes,
            Err(error) => {
                return Err(error);
            },
        };
        proof {
            reveal_with_fuel(big_endian_value, 3);
        }
        Ok(b[0] as u16 * 256 + b[1] as u16)
    }

    pub fn read_i64(&mut self) -> (outcome: Result<i64, ProtocolError>)
        ensures
            match outcome {
                Ok(value) => i64_field(old(self).rest()) == Field::Read(value, 8) && final(self).advanced(*old(self), 8),
                Err(error) => i64_field(old(self).rest()) == Field::<i64>::Bad(error) && final(self).advanced(*old(self), 0),
            },
    {
        let b = match self.read_bytes(8) {
            Ok(bytes) => bytes,
            Err(error) => {
                return Err(error);
            },
        };
        let high: u64 = b[0] as u64 * 0x100_0000 + b[1] as u64 * 0x1_0000 + b[2] as u64 * 0x100
            + b[3] as u64;
        let low: u64 = b[4] as u64 * 0x100_0000 + b[5] as u64 * 0x1_0000 + b[6] as u64 * 0x100
            + b[7] as u64;
        let value: u64 = high * 0x1_0000_0000 + low;
        proof {
            let s = b@;
            reveal_with_fuel(big_endian_value, 9);
        }
        Ok(value as i64)
    }

    /// Checks that every byte was read.
    pub fn expect_end(&self) -> (outcome: Result<(), ProtocolError>)
        ensures
            match outcome {
                Ok(_) => self.rest().len() == 0,
                Err(error) => self.rest().len() > 0 && error == ProtocolError::InvalidValue(
                    "trailing packet data",
                ),
            },
    {
        if self.remaining() == 0 {
            Ok(())
        } else {
            Err(ProtocolError::InvalidValue("trailing packet data"))
        }
    }
}

/// Reads the length in front of a packet, byte by byte as the bytes arrive.
pub struct FrameHeader {
    bytes: Vec<u8>,
}

/// What one more byte makes of a frame's length.
pub enum HeaderStep {
    More(FrameHeader),
    Complete(i32),
    TooLong,
}

impl FrameHeader {
    #[verifier::type_invariant]
    closed spec fn inv(self) -> bool {
        self.bytes@.len() < 5 && forall|k: int|
            0 <= k < self.bytes@.len() ==> #[trigger] self.bytes@[k] >= 128
    }

    /// The bytes that arrived so far.
    pub closed spec fn seen(self) -> Seq<u8> {
        self.bytes@
    }

    pub fn new() -> (header: Self)
        ensures
            header.seen() == Seq::<u8>::empty(),
    {
        FrameHeader { bytes: Vec::new() }
    }

    /// Takes in one byte.
    pub fn push(self, byte: u8) -> (step: HeaderStep)
        ensures
            match step {
                HeaderStep::More(header) => header.seen() == self.seen().push(byte)
                    && varint::decoded_varint(self.seen().push(byte)) is Truncated,
                HeaderStep::Complete(length) => varint::decoded_varint(self.seen().push(byte))
                    == VarIntOutcome::Complete(length, self.seen().len() + 1),
                HeaderStep::TooLong => varint::decoded_varint(self.seen().push(byte)) is TooLong,
            },
    {
        proof {
            use_type_invariant(&self);
        }
        let mut bytes = self.bytes;
        let ghost seen = bytes@;
        bytes.push(byte);
        let ghost all = bytes@;
        proof {
            if byte < 128 {
                varint::lemma_continued_is(all, seen.len());
            } else {
                varint::lemma_continued_bound(all);
            }
        }
        if byte < 128 {
            let mut reader = PacketReader::new(bytes.as_slice());
            match reader.read_varint() {
                Ok(length) => HeaderStep::Complete(length),
                Err(_) => {
                    HeaderStep::TooLong
                },
            }
        } else if bytes.len() < 5 {
            HeaderStep::More(FrameHeader { bytes })
        } else {
            HeaderStep::TooLong
        }
    }

    /// What it means that the stream ends here: nothing is wrong between two packets.
    pub fn end_of_stream(&self) -> (outcome: Result<(), ProtocolError>)
        ensures
            match outcome {
                Ok(_) => self.seen().len() == 0,
                Err(error) => self.seen().len() > 0 && error == ProtocolError::UnexpectedEof,
            },
    {
        if self.bytes.len() == 0 {
            Ok(())
        } else {
            Err(ProtocolError::UnexpectedEof)
        }
    }
}

/// Accepts the length of a frame, if it is within the limit.
pub fn frame_length(length: i32, max_frame_length: usize) -> (outcome: Result<usize, ProtocolError>)
    ensures
        match outcome {
            Ok(n) => n == length && length <= max_frame_length,
            Err(ProtocolError::NegativePacketLength) => length < 0,
            Err(ProtocolError::PacketTooLarge { length: n, limit }) => n == length && limit
                == max_frame_length && length > max_frame_length,
            Err(_) => false,
        },
{
    if length < 0 {
        return Err(ProtocolError::NegativePacketLength);
    }
    let length = length as usize;
    if length > max_frame_length {
        return Err(ProtocolError::PacketTooLarge { length, limit: max_frame_length });
    }
    Ok(length)
}

/// Takes a frame, without its length, apart into the packet's id and contents.
pub fn parse_frame(frame: &[u8]) -> (outcome: Result<Packet, ProtocolError>)
    ensures
        match outcome {
            Ok(packet) => varint_field(frame@) matches Field::Read(id, n) && packet.id == id
                && packet.payload@ == frame@.skip(n as int),
            Err(error) => varint_field(frame@) == Field::<i32>::Bad(error),
        },
{
    let mut reader = PacketReader::new(frame);
    let id: i32 = match reader.read_varint() {
        Ok(id) => id,
        Err(error) => {
            return Err(error);
        },
    };
    let rest = slice_subrange(frame, reader.position(), frame.len());
    let mut payload: Vec<u8> = Vec::new();
    write_bytes(&mut payload, rest);
    Ok(Packet { id, payload })
}

/// The bytes to send for a packet.
pub fn encode_frame(id: i32, payload: &[u8]) -> (frame: Vec<u8>)
    ensures
        frame@ == encoded_frame(id, payload@),
{
    let mut body: Vec<u8> = Vec::new();
    write_varint(&mut body, id);
    write_bytes(&mut body, payload);
    let mut frame: Vec<u8> = Vec::new();
    write_varint(&mut frame, body.len() as i32);
    write_bytes(&mut frame, body.as_slice());
    frame
}

/// What is sent for a packet is read back as that packet: the length in front counts the
/// bytes behind it, and those are the id and the contents.
pub proof fn lemma_frame_round_trip(id: i32, payload: Seq<u8>, tail: Seq<u8>)
    requires
        (varint::encoded_varint(id) + payload).len() <= i32::MAX,
    ensures
        ({
            let body = varint::encoded_varint(id) + payload;
            let head = varint::encoded_varint(body.len() as i32);
            let sent = encoded_frame(id, payload) + tail;
            &&& varint::decoded_varint(sent) == VarIntOutcome::Complete(body.len() as i32, head.len())
            &&& sent.skip(head.len() as int).take(body.len() as int) == body
            &&& varint_field(body) == Field::Read(id, varint::encoded_varint(id).len())
            &&& body.skip(varint::encoded_varint(id).len() as int) == payload
        }),
{
    let body = varint::encoded_varint(id) + payload;
    let head = varint::encoded_varint(body.len() as i32);
    let sent = encoded_frame(id, payload) + tail;
    assert(sent =~= head + (body + tail));
    varint::lemma_varint_round_trip(body.len() as i32, body + tail);
    varint::lemma_varint_round_trip(id, payload);
}

/// A string is written as the number of its bytes and the bytes themselves.
pub proof fn lemma_string_on_the_wire(text: Seq<char>)
    ensures
        encoded_string(text) == varint::encoded_varint(utf8::encode_utf8(text).len() as i32)
            + utf8::encode_utf8(text),
{
}

/// A frame is written as the number of bytes that follow, the id and the contents.
pub proof fn lemma_frame_on_the_wire(id: i32, payload: &[u8], frame: Vec<u8>)
    requires
        call_ensures(encode_frame, (id, payload), frame),
    ensures
        ({
            let head = varint::encoded_varint(id);
            frame@ == varint::encoded_varint((head.len() + payload@.len()) as i32) + head + payload@
        }),
{
    let head = varint::encoded_varint(id);
    assert(frame@ =~= varint::encoded_varint((head.len() + payload@.len()) as i32) + head
        + payload@);
}

/// A frame is accepted exactly when its length is not negative and within the limit.
pub proof fn lemma_accepted_frames(
    length: i32,
    limit: usize,
    outcome: Result<usize, ProtocolError>,
)
    requires
        call_ensures(frame_length, (length, limit), outcome),
    ensures
        outcome is Ok <==> 0 <= length <= limit,
        outcome is Ok ==> outcome->Ok_0 == length,
{
}

/// The length in front of a packet, taken in byte by byte, is complete with its last byte and
/// not before.
pub proof fn lemma_length_arrives_byte_by_byte(
    length: i32,
    n: int,
    header: FrameHeader,
    step: HeaderStep,
)
    requires
        0 <= n < varint::encoded_varint(length).len(),
        header.seen() == varint::encoded_varint(length).take(n),
        call_ensures(FrameHeader::push, (header, varint::encoded_varint(length)[n]), step),
    ensures
        n + 1 == varint::encoded_varint(length).len() ==> step == HeaderStep::Complete(length),
        n + 1 < varint::encoded_varint(length).len() ==> (step matches HeaderStep::More(next)
            && next.seen() == varint::encoded_varint(length).take(n + 1)),
{
    let bytes = varint::encoded_varint(length);
    varint::lemma_varint_on_the_wire(length);
    assert(bytes.take(n).push(bytes[n]) =~= bytes.take(n + 1));
    if n + 1 == bytes.len() {
        assert(bytes.take(n + 1) =~= bytes);
        assert(bytes + Seq::empty() =~= bytes);
        varint::lemma_varint_round_trip(length, Seq::empty());
    } else {
        let part = bytes.take(n + 1);
        varint::lemma_continued_bound(part);
        assert(varint::continued(part) == part.len()) by {
            if varint::continued(part) < part.len() {
                let k = varint::continued(part) as int;
                assert(part[k] == bytes[k]);
            }
        }
    }
}

} // verus!
