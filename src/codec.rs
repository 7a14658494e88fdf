//! Fixed-length frames: the minimal profile (header and action) and the
//! extended profile (header, action, target and value).
use vstd::prelude::*;

use crate::types::{SemanticID, UALError, UALMessage, UALResult};

verus! {

/// First magic byte, `'U'`.
pub const MAGIC_0: u8 = 0x55;

/// Second magic byte, `'A'`.
pub const MAGIC_1: u8 = 0x41;

/// Length of a minimal frame: magic and action ID.
pub const MINIMAL_FRAME_LEN: usize = 4;

/// Length of an extended frame: magic, action ID, target ID and value.
pub const EXTENDED_FRAME_LEN: usize = 10;

/// The two magic bytes that open every frame.
pub open spec fn magic() -> Seq<u8> {
    seq![0x55u8, 0x41u8]
}

/// A 16-bit ID in big-endian order.
pub open spec fn be16(x: u16) -> Seq<u8> {
    seq![(x / 256) as u8, (x % 256) as u8]
}

/// The 32-bit two's complement pattern of `v`, as an unsigned number.
pub open spec fn twos_complement(v: i32) -> int {
    if v < 0 {
        v + 0x1_0000_0000
    } else {
        v as int
    }
}

/// A 32-bit signed value in big-endian two's complement.
pub open spec fn be32(v: i32) -> Seq<u8> {
    let u = twos_complement(v);
    seq![
        (u / 0x100_0000) as u8,
        (u / 0x1_0000 % 256) as u8,
        (u / 256 % 256) as u8,
        (u % 256) as u8,
    ]
}

/// The minimal frame that carries `action`.
pub open spec fn minimal_frame(action: SemanticID) -> Seq<u8> {
    magic() + be16(action)
}

/// The extended frame that carries the whole of `m`.
pub open spec fn extended_frame(m: UALMessage) -> Seq<u8> {
    minimal_frame(m.action_id) + be16(m.target_id) + be32(m.value)
}

/// Outcome of writing `frame` at the start of `buf`: the result and the buffer after.
/// A buffer shorter than the frame is rejected and keeps its contents; otherwise the
/// frame replaces its first bytes and the rest stays.
pub open spec fn write_frame(frame: Seq<u8>, buf: Seq<u8>) -> (UALResult<usize>, Seq<u8>) {
    if buf.len() < frame.len() {
        (Err(UALError::BufferTooSmall), buf)
    } else {
        (Ok(frame.len() as usize), frame + buf.subrange(frame.len() as int, buf.len() as int))
    }
}

/// Whether `b` opens with the magic bytes; `b` holds at least two bytes.
pub open spec fn has_magic(b: Seq<u8>) -> bool {
    b[0] == 0x55u8 && b[1] == 0x41u8
}

/// The big-endian 16-bit number at `b[i]`, `b[i + 1]`.
pub open spec fn read_be16(b: Seq<u8>, i: int) -> u16 {
    (b[i] * 256 + b[i + 1]) as u16
}

/// The big-endian 32-bit two's complement number at `b[i] .. b[i + 3]`.
pub open spec fn read_be32(b: Seq<u8>, i: int) -> i32 {
    let u = b[i] * 0x100_0000 + b[i + 1] * 0x1_0000 + b[i + 2] * 256 + b[i + 3];
    if u >= 0x8000_0000 {
        (u - 0x1_0000_0000) as i32
    } else {
        u as i32
    }
}

/// What decoding `b` as a minimal frame gives: the header is checked before the
/// action ID is read, and each read is preceded by a length check.
pub open spec fn decode_minimal_spec(b: Seq<u8>) -> UALResult<SemanticID> {
    if b.len() < 2 {
        Err(UALError::BufferTooSmall)
    } else if !has_magic(b) {
        Err(UALError::InvalidHeader)
    } else if b.len() < 4 {
        Err(UALError::BufferTooSmall)
    } else {
        Ok(read_be16(b, 2))
    }
}

/// What decoding `b` as an extended frame gives. Bytes past the frame are ignored.
pub open spec fn decode_spec(b: Seq<u8>) -> UALResult<UALMessage> {
    if b.len() < 2 {
        Err(UALError::BufferTooSmall)
    } else if !has_magic(b) {
        Err(UALError::InvalidHeader)
    } else if b.len() < 10 {
        Err(UALError::BufferTooSmall)
    } else {
        Ok(
            UALMessage {
                action_id: read_be16(b, 2),
                target_id: read_be16(b, 4),
                value: read_be32(b, 6),
            },
        )
    }
}

/// Serialises messages into caller-owned buffers. It holds no state.
pub struct Encoder;

impl Encoder {
    pub fn new() -> (r: Self) {
        Encoder
    }

    /// Writes the minimal frame of `msg` at the start of `buffer` and returns its length.
    /// Bytes past the frame are left as they were; a buffer too short for the frame is
    /// left untouched.
    pub fn encode(&self, msg: &UALMessage, buffer: &mut [u8]) -> (r: UALResult<usize>)
        ensures
            (r, final(buffer)@) == write_frame(minimal_frame(msg.action_id), old(buffer)@),
    {
        if buffer.len() < MINIMAL_FRAME_LEN {
            return Err(UALError::BufferTooSmall);
        }
        buffer[0] = MAGIC_0;
        buffer[1] = MAGIC_1;
        let action_id = msg.action_id;
        buffer[2] = (action_id / 256) as u8;
        buffer[3] = (action_id % 256) as u8;
        assert(buffer@ =~= minimal_frame(msg.action_id) + old(buffer)@.subrange(
            4,
            old(buffer)@.len() as int,
        ));
        Ok(MINIMAL_FRAME_LEN)
    }

    /// Writes the extended frame of `msg` (action, target and value) at the start of
    /// `buffer` and returns its length. Bytes past the frame are left as they were; a
    /// buffer too short for the frame is left untouched.
    pub fn encode_extended(&self, msg: &UALMessage, buffer: &mut [u8]) -> (r: UALResult<usize>)
        ensures
            (r, final(buffer)@) == write_frame(extended_frame(*msg), old(buffer)@),
    {
        if buffer.len() < EXTENDED_FRAME_LEN {
            return Err(UALError::BufferTooSmall);
        }
        buffer[0] = MAGIC_0;
        buffer[1] = MAGIC_1;
        buffer[2] = (msg.action_id / 256) as u8;
        buffer[3] = (msg.action_id % 256) as u8;
        buffer[4] = (msg.target_id / 256) as u8;
        buffer[5] = (msg.target_id % 256) as u8;
        let u: u32 = if msg.value < 0 {
            (msg.value as i64 + 0x1_0000_0000i64) as u32
        } else {
            msg.value as u32
        };
        assert(u == twos_complement(msg.value));
        buffer[6] = (u / 0x100_0000) as u8;
        buffer[7] = (u / 0x1_0000 % 256) as u8;
        buffer[8] = (u / 256 % 256) as u8;
        buffer[9] = (u % 256) as u8;
        assert(buffer@ =~= extended_frame(*msg) + old(buffer)@.subrange(
            10,
            old(buffer)@.len() as int,
        ));
        Ok(EXTENDED_FRAME_LEN)
    }
}

/// Parses the minimal frame at the start of `bytes` and returns its action ID.
/// Unknown IDs are passed through; checking them against an atlas is the caller's step.
pub fn decode_minimal(bytes: &[u8]) -> (r: UALResult<SemanticID>)
    ensures
        r == decode_minimal_spec(bytes@),
{
    if bytes.len() < 2 {
        return Err(UALError::BufferTooSmall);
    }
    if bytes[0] != MAGIC_0 || bytes[1] != MAGIC_1 {
        return Err(UALError::InvalidHeader);
    }
    if bytes.len() < MINIMAL_FRAME_LEN {
        return Err(UALError::BufferTooSmall);
    }
    Ok(read_u16(bytes, 2))
}

/// Parses the extended frame at the start of `bytes` into a message.
/// Unknown IDs are passed through; checking them against an atlas is the caller's step.
pub fn decode(bytes: &[u8]) -> (r: UALResult<UALMessage>)
    ensures
        r == decode_spec(bytes@),
{
    if bytes.len() < 2 {
        return Err(UALError::BufferTooSmall);
    }
    if bytes[0] != MAGIC_0 || bytes[1] != MAGIC_1 {
        return Err(UALError::InvalidHeader);
    }
    if bytes.len() < EXTENDED_FRAME_LEN {
        return Err(UALError::BufferTooSmall);
    }
    let action_id = read_u16(bytes, 2);
    let target_id = read_u16(bytes, 4);
    let u: u32 = (bytes[6] as u32) * 0x100_0000 + (bytes[7] as u32) * 0x1_0000 + (bytes[8] as u32)
        * 256 + bytes[9] as u32;
    let value: i32 = if u >= 0x8000_0000 {
        (u as i64 - 0x1_0000_0000i64) as i32
    } else {
        u as i32
    };
    Ok(UALMessage { action_id, target_id, value })
}

/// The big-endian 16-bit number at `bytes[i]`, `bytes[i + 1]`.
fn read_u16(bytes: &[u8], i: usize) -> (r: u16)
    requires
        i + 2 <= bytes@.len(),
    ensures
        r == read_be16(bytes@, i as int),
{
    (bytes[i] as u16) * 256 + bytes[i + 1] as u16
}

/// Decoding what `encode_extended` wrote into a large enough buffer gives back the
/// message, whatever the buffer held before; decoding what `encode` wrote gives back
/// the action ID.
pub proof fn lemma_round_trip(m: UALMessage, buf: Seq<u8>)
    ensures
        buf.len() >= EXTENDED_FRAME_LEN ==> decode_spec(write_frame(extended_frame(m), buf).1)
            == Ok::<UALMessage, UALError>(m),
        buf.len() >= MINIMAL_FRAME_LEN ==> decode_minimal_spec(
            write_frame(minimal_frame(m.action_id), buf).1,
        ) == Ok::<SemanticID, UALError>(m.action_id),
{
    let a = m.action_id;
    let t = m.target_id;
    let u = twos_complement(m.value);
    assert(((a / 256) as u8) * 256 + ((a % 256) as u8) == a);
    assert(((t / 256) as u8) * 256 + ((t % 256) as u8) == t);
    assert(((u / 0x100_0000) as u8) * 0x100_0000 + ((u / 0x1_0000 % 256) as u8) * 0x1_0000
        + ((u / 256 % 256) as u8) * 256 + ((u % 256) as u8) == u);
}

/// Encoding one message into two buffers of the same length gives the same result,
/// and the same bytes up to the length returned, in either profile.
pub proof fn lemma_encode_deterministic(m: UALMessage, b1: Seq<u8>, b2: Seq<u8>)
    requires
        b1.len() == b2.len(),
    ensures
        write_frame(minimal_frame(m.action_id), b1).0 == write_frame(
            minimal_frame(m.action_id),
            b2,
        ).0,
        b1.len() >= MINIMAL_FRAME_LEN ==> write_frame(minimal_frame(m.action_id), b1).1.subrange(
            0,
            MINIMAL_FRAME_LEN as int,
        ) == write_frame(minimal_frame(m.action_id), b2).1.subrange(0, MINIMAL_FRAME_LEN as int),
        write_frame(extended_frame(m), b1).0 == write_frame(extended_frame(m), b2).0,
        b1.len() >= EXTENDED_FRAME_LEN ==> write_frame(extended_frame(m), b1).1.subrange(
            0,
            EXTENDED_FRAME_LEN as int,
        ) == write_frame(extended_frame(m), b2).1.subrange(0, EXTENDED_FRAME_LEN as int),
{
    let f = minimal_frame(m.action_id);
    let g = extended_frame(m);
    if b1.len() >= MINIMAL_FRAME_LEN {
        assert(write_frame(f, b1).1.subrange(0, 4) =~= f);
        assert(write_frame(f, b2).1.subrange(0, 4) =~= f);
    }
    if b1.len() >= EXTENDED_FRAME_LEN {
        assert(write_frame(g, b1).1.subrange(0, 10) =~= g);
        assert(write_frame(g, b2).1.subrange(0, 10) =~= g);
    }
}

/// A slice of at least two bytes that does not open with the magic bytes is rejected
/// as `InvalidHeader` by both decoders, whatever follows.
pub proof fn lemma_bad_header_rejected(b: Seq<u8>)
    requires
        b.len() >= 2,
        b[0] != MAGIC_0 || b[1] != MAGIC_1,
    ensures
        decode_spec(b) == Err::<UALMessage, UALError>(UALError::InvalidHeader),
        decode_minimal_spec(b) == Err::<SemanticID, UALError>(UALError::InvalidHeader),
{
}

/// A buffer shorter than a frame is rejected as `BufferTooSmall` and keeps its contents.
pub proof fn lemma_short_buffer_untouched(m: UALMessage, buf: Seq<u8>)
    ensures
        buf.len() < MINIMAL_FRAME_LEN ==> write_frame(minimal_frame(m.action_id), buf) == (
        Err::<usize, UALError>(UALError::BufferTooSmall), buf),
        buf.len() < EXTENDED_FRAME_LEN ==> write_frame(extended_frame(m), buf) == (
        Err::<usize, UALError>(UALError::BufferTooSmall), buf),
{
}

} // verus!
