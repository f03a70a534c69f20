//! The sensor frame codec: layout of the 32-byte frame emitted by the
//! particulate-matter sensor, the 16-bit wraparound checksum, and the
//! decoder from raw bytes to a typed record.

use vstd::prelude::*;

verus! {

/// Number of bytes in one frame on the wire.
pub const FRAME_LEN: usize = 32;

/// First byte of every well-formed frame.
pub const START_BYTE: u8 = 0x42;

/// Why a 32-byte window failed to decode as a frame.
#[derive(Debug, PartialEq, Eq, Structural)]
pub enum ParseError {
    InvalidChecksum,
    InvalidStartByte,
}

/// Failure of a whole reader session: either a frame-level parse failure or
/// an error from the underlying byte source.
#[derive(Debug)]
pub enum Error<E> {
    ParseError(ParseError),
    ReadError(E),
}

/// One decoded sensor record: fourteen big-endian 16-bit fields plus the
/// frame checksum, all plain unsigned integers in memory.
#[derive(Debug, Default, Clone, Copy, PartialEq, Eq, Structural)]
pub struct PmsAQIData {
    /// How long this data chunk is
    pub framelen: u16,
    /// Standard PM1.0
    pub pm10_standard: u16,
    /// Standard PM2.5
    pub pm25_standard: u16,
    /// Standard PM10.0
    pub pm100_standard: u16,
    /// Environmental PM1.0
    pub pm10_env: u16,
    /// Environmental PM2.5
    pub pm25_env: u16,
    /// Environmental PM10.0
    pub pm100_env: u16,
    /// 0.3um Particle Count
    pub particles_03um: u16,
    /// 0.5um Particle Count
    pub particles_05um: u16,
    /// 1.0um Particle Count
    pub particles_10um: u16,
    /// 2.5um Particle Count
    pub particles_25um: u16,
    /// 5.0um Particle Count
    pub particles_50um: u16,
    /// 10.0um Particle Count
    pub particles_100um: u16,
    /// Unused
    pub unused: u16,
    /// Packet checksum
    pub checksum: u16,
}

/// The big-endian 16-bit value stored at byte offset `off`.
pub open spec fn be_u16(bytes: Seq<u8>, off: int) -> u16
    recommends
        0 <= off,
        off + 2 <= bytes.len(),
{
    (bytes[off] * 256 + bytes[off + 1]) as u16
}

/// The plain (unbounded) sum of a sequence of bytes.
pub open spec fn byte_sum(bytes: Seq<u8>) -> int
    decreases bytes.len(),
{
    if bytes.len() == 0 {
        0
    } else {
        byte_sum(bytes.drop_last()) + bytes.last()
    }
}

/// The 16-bit wraparound sum of a sequence of bytes: overflow silently
/// discards the carry.
pub open spec fn checksum_of(bytes: Seq<u8>) -> u16
    decreases bytes.len(),
{
    if bytes.len() == 0 {
        0u16
    } else {
        ((checksum_of(bytes.drop_last()) + bytes.last()) % 0x10000) as u16
    }
}

/// The wraparound checksum is exactly the plain byte sum reduced mod 2^16.
pub proof fn lemma_checksum_is_sum_mod(bytes: Seq<u8>)
    ensures
        checksum_of(bytes) == byte_sum(bytes) % 0x10000,
    decreases bytes.len(),
{
    if bytes.len() > 0 {
        lemma_checksum_is_sum_mod(bytes.drop_last());
        let s = byte_sum(bytes.drop_last());
        let b = bytes.last() as int;
        assert((s % 0x10000 + b) % 0x10000 == (s + b) % 0x10000) by {
            vstd::arithmetic::div_mod::lemma_add_mod_noop(s, b, 0x10000);
            vstd::arithmetic::div_mod::lemma_mod_twice(s, 0x10000);
            vstd::arithmetic::div_mod::lemma_mod_twice(b, 0x10000);
            vstd::arithmetic::div_mod::lemma_add_mod_noop(s % 0x10000, b, 0x10000);
        }
    }
}

/// A 32-byte window is a well-formed frame: it opens with the start byte and
/// its trailing big-endian word matches the wraparound sum of the 30 bytes
/// before it.
pub open spec fn frame_well_formed(bytes: Seq<u8>) -> bool
    recommends
        bytes.len() == FRAME_LEN,
{
    &&& bytes[0] == START_BYTE
    &&& be_u16(bytes, 30) == checksum_of(bytes.take(30))
}

/// The record a well-formed 32-byte frame carries: each field is the
/// big-endian 16-bit word at its fixed offset.
pub open spec fn frame_fields(bytes: Seq<u8>) -> PmsAQIData
    recommends
        bytes.len() == FRAME_LEN,
{
    PmsAQIData {
        framelen: be_u16(bytes, 2),
        pm10_standard: be_u16(bytes, 4),
        pm25_standard: be_u16(bytes, 6),
        pm100_standard: be_u16(bytes, 8),
        pm10_env: be_u16(bytes, 10),
        pm25_env: be_u16(bytes, 12),
        pm100_env: be_u16(bytes, 14),
        particles_03um: be_u16(bytes, 16),
        particles_05um: be_u16(bytes, 18),
        particles_10um: be_u16(bytes, 20),
        particles_25um: be_u16(bytes, 22),
        particles_50um: be_u16(bytes, 24),
        particles_100um: be_u16(bytes, 26),
        unused: be_u16(bytes, 28),
        checksum: be_u16(bytes, 30),
    }
}

/// What decoding a 32-byte window yields: the start byte is checked first,
/// then the checksum, and only then are the fields extracted.
pub open spec fn spec_decode(bytes: Seq<u8>) -> Result<PmsAQIData, ParseError>
    recommends
        bytes.len() == FRAME_LEN,
{
    if bytes[0] != START_BYTE {
        Err(ParseError::InvalidStartByte)
    } else if be_u16(bytes, 30) != checksum_of(bytes.take(30)) {
        Err(ParseError::InvalidChecksum)
    } else {
        Ok(frame_fields(bytes))
    }
}

/// The big-endian 16-bit field number `i` of `bytes` (fields are two bytes
/// wide, so field `i` sits at byte offset `2 * i`).
pub fn get_u16_from_be(bytes: &[u8], i: usize) -> (r: u16)
    requires
        2 * i + 2 <= bytes@.len(),
    ensures
        r == be_u16(bytes@, 2 * i as int),
{
    let n = bytes.len();
    assert(2 * i + 2 <= n);
    let idx = i * 2;
    (bytes[idx] as u16) * 256 + (bytes[idx + 1] as u16)
}

impl PmsAQIData {
    /// Decode one 32-byte window. Succeeds exactly when the window opens with
    /// the start byte and its trailing word equals the wraparound sum of the
    /// 30 bytes before it; on success every field is the big-endian word at
    /// its fixed offset.
    pub fn from_bytes(bytes: &[u8]) -> (r: Result<Self, ParseError>)
        requires
            bytes@.len() == FRAME_LEN,
        ensures
            r == spec_decode(bytes@),
            r is Ok <==> frame_well_formed(bytes@),
            r matches Ok(data) ==> data == frame_fields(bytes@),
    {
        if bytes[0] != START_BYTE {
            return Err(ParseError::InvalidStartByte);
        }
        let mut actual_checksum: u16 = 0;
        // Only checksum everything up to the expected checksum (last 2 bytes)
        let mut i: usize = 0;
        while i < 30
            invariant
                i <= 30,
                bytes@.len() == FRAME_LEN,
                actual_checksum == checksum_of(bytes@.take(i as int)),
            decreases 30 - i,
        {
            proof {
                assert(bytes@.take(i + 1).drop_last() =~= bytes@.take(i as int));
                assert(bytes@.take(i + 1).last() == bytes@[i as int]);
            }
            actual_checksum = actual_checksum.wrapping_add(bytes[i] as u16);
            i = i + 1;
        }

        let checksum = get_u16_from_be(bytes, 15);

        if checksum != actual_checksum {
            return Err(ParseError::InvalidChecksum);
        }

        Ok(PmsAQIData {
            framelen: get_u16_from_be(bytes, 1),
            pm10_standard: get_u16_from_be(bytes, 2),
            pm25_standard: get_u16_from_be(bytes, 3),
            pm100_standard: get_u16_from_be(bytes, 4),
            pm10_env: get_u16_from_be(bytes, 5),
            pm25_env: get_u16_from_be(bytes, 6),
            pm100_env: get_u16_from_be(bytes, 7),
            particles_03um: get_u16_from_be(bytes, 8),
            particles_05um: get_u16_from_be(bytes, 9),
            particles_10um: get_u16_from_be(bytes, 10),
            particles_25um: get_u16_from_be(bytes, 11),
            particles_50um: get_u16_from_be(bytes, 12),
            particles_100um: get_u16_from_be(bytes, 13),
            unused: get_u16_from_be(bytes, 14),
            checksum,
        })
    }
}

/// Checksum validation is invariant under wraparound collisions: two frames
/// that agree on their start byte and stored checksum word, and whose leading
/// 30-byte sums are congruent mod 2^16, validate identically.
pub proof fn lemma_checksum_collision(b1: Seq<u8>, b2: Seq<u8>)
    requires
        b1.len() == FRAME_LEN,
        b2.len() == FRAME_LEN,
        b1[0] == b2[0],
        b1[30] == b2[30],
        b1[31] == b2[31],
        byte_sum(b1.take(30)) % 0x10000 == byte_sum(b2.take(30)) % 0x10000,
    ensures
        spec_decode(b1) is Ok <==> spec_decode(b2) is Ok,
        spec_decode(b1) is Err ==> spec_decode(b1)->Err_0 == spec_decode(b2)->Err_0,
{
    lemma_checksum_is_sum_mod(b1.take(30));
    lemma_checksum_is_sum_mod(b2.take(30));
}

} // verus!

