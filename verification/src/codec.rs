//! The fixed-width binary wire format.
//!
//! A frame is `FRAME_SIZE` bytes, little-endian throughout:
//!
//! | bytes    | content                                             |
//! |----------|-----------------------------------------------------|
//! | `0..2`   | CRC-16/CCITT-FALSE of bytes `2..68`                 |
//! | `2..10`  | `running_us`                                        |
//! | `10..58` | `tvc_x`, `tvc_z`, `angle`, `temperature`, `v_sys`, `v_bat` |
//! | `58..60` | `offset`                                            |
//! | `60..68` | the marker `0xDEADBEEFBEEFDEAD`                     |
//!
//! The layout has no slot for `v_bus_present`: a decoded record reports it as
//! `false`.

use vstd::prelude::*;
use crate::crc::{crc16, crc16_spec, lemma_crc_detects_single_byte_change};
use crate::telemetry::{F64Bits, TelemetryPacket};

verus! {

/// Length of the checksum field that opens a frame.
pub const CHECKSUM_SIZE: usize = 2;

/// Length of the marker that closes a frame.
pub const MARKER_SIZE: usize = 8;

/// Length of a whole frame.
pub const FRAME_SIZE: usize = 68;

/// The value whose little-endian bytes close every frame.
pub const MARKER: u64 = 0xDEAD_BEEF_BEEF_DEAD;

/// Why a unit read off the wire gave no record.
#[derive(Clone, Copy, Debug, PartialEq, Eq, Structural)]
pub enum DecodeFailure {
    /// The checksum field of a fixed-width frame does not match its content.
    ChecksumMismatch,
    /// The transport failed underneath the decoder.
    Io,
    /// The stream ended.
    Eof,
    /// The bytes at `offset` are not a well-formed record.
    Syntax { offset: u64 },
    /// The record at `offset` is well-formed but does not hold the expected
    /// fields.
    Data { offset: u64 },
    /// A record was larger than the decoder's scratch buffer.
    ScratchTooSmall,
}

/// The 16-bit little-endian value at `at`.
pub open spec fn u16_le(bytes: Seq<u8>, at: int) -> u16 {
    (bytes[at] as u16) | ((bytes[at + 1] as u16) << 8)
}

/// The 64-bit little-endian value at `at`.
pub open spec fn u64_le(bytes: Seq<u8>, at: int) -> u64 {
    (bytes[at] as u64) | ((bytes[at + 1] as u64) << 8) | ((bytes[at + 2] as u64) << 16) | ((bytes[at
        + 3] as u64) << 24) | ((bytes[at + 4] as u64) << 32) | ((bytes[at + 5] as u64) << 40) | ((
    bytes[at + 6] as u64) << 48) | ((bytes[at + 7] as u64) << 56)
}

/// The two little-endian bytes of `value`.
pub open spec fn u16_le_bytes(value: u16) -> Seq<u8> {
    seq![(value & 0xff) as u8, ((value >> 8) & 0xff) as u8]
}

/// The eight little-endian bytes of `value`.
pub open spec fn u64_le_bytes(value: u64) -> Seq<u8> {
    seq![
        (value & 0xff) as u8,
        ((value >> 8) & 0xff) as u8,
        ((value >> 16) & 0xff) as u8,
        ((value >> 24) & 0xff) as u8,
        ((value >> 32) & 0xff) as u8,
        ((value >> 40) & 0xff) as u8,
        ((value >> 48) & 0xff) as u8,
        ((value >> 56) & 0xff) as u8,
    ]
}

/// The eight little-endian bytes of the marker.
pub open spec fn marker_bytes() -> Seq<u8> {
    seq![0xADu8, 0xDEu8, 0xEFu8, 0xBEu8, 0xEFu8, 0xBEu8, 0xADu8, 0xDEu8]
}

/// Whether the last `MARKER_SIZE` bytes of `window` are the marker.
pub open spec fn ends_with_marker(window: Seq<u8>) -> bool {
    window.len() >= 8 && window.subrange(window.len() - 8, window.len() as int) == marker_bytes()
}

/// The part of a frame that its checksum covers: everything after the
/// checksum field, marker included.
pub open spec fn checksummed_part(frame: Seq<u8>) -> Seq<u8> {
    frame.subrange(2, 68)
}

/// Whether the checksum field of `frame` matches its content.
pub open spec fn checksum_matches(frame: Seq<u8>) -> bool {
    u16_le(frame, 0) == crc16_spec(checksummed_part(frame))
}

/// The record that the fields of `frame` spell out.
pub open spec fn frame_fields(frame: Seq<u8>) -> TelemetryPacket {
    TelemetryPacket {
        running_us: u64_le(frame, 2),
        tvc_x: F64Bits { bits: u64_le(frame, 10) },
        tvc_z: F64Bits { bits: u64_le(frame, 18) },
        angle: F64Bits { bits: u64_le(frame, 26) },
        temperature: F64Bits { bits: u64_le(frame, 34) },
        v_sys: F64Bits { bits: u64_le(frame, 42) },
        v_bat: F64Bits { bits: u64_le(frame, 50) },
        offset: u16_le(frame, 58),
        v_bus_present: false,
    }
}

/// Everything in the frame of `packet` that follows the checksum field.
pub open spec fn encode_payload(packet: TelemetryPacket) -> Seq<u8> {
    u64_le_bytes(packet.running_us) + u64_le_bytes(packet.tvc_x.bits) + u64_le_bytes(
        packet.tvc_z.bits,
    ) + u64_le_bytes(packet.angle.bits) + u64_le_bytes(packet.temperature.bits) + u64_le_bytes(
        packet.v_sys.bits,
    ) + u64_le_bytes(packet.v_bat.bits) + u16_le_bytes(packet.offset) + marker_bytes()
}

/// The frame that carries `packet`.
pub open spec fn encode_spec(packet: TelemetryPacket) -> Seq<u8> {
    u16_le_bytes(crc16_spec(encode_payload(packet))) + encode_payload(packet)
}

/// What decoding `frame` gives.
pub open spec fn decode_spec(frame: Seq<u8>) -> Result<TelemetryPacket, DecodeFailure> {
    if checksum_matches(frame) {
        Ok(frame_fields(frame))
    } else {
        Err(DecodeFailure::ChecksumMismatch)
    }
}

fn read_u16_le(frame: &[u8; FRAME_SIZE], at: usize) -> (value: u16)
    requires
        at + 2 <= FRAME_SIZE,
    ensures
        value == u16_le(frame@, at as int),
{
    (frame[at] as u16) | ((frame[at + 1] as u16) << 8)
}

fn read_u64_le(frame: &[u8; FRAME_SIZE], at: usize) -> (value: u64)
    requires
        at + 8 <= FRAME_SIZE,
    ensures
        value == u64_le(frame@, at as int),
{
    (frame[at] as u64) | ((frame[at + 1] as u64) << 8) | ((frame[at + 2] as u64) << 16) | ((frame[at
        + 3] as u64) << 24) | ((frame[at + 4] as u64) << 32) | ((frame[at + 5] as u64) << 40) | ((
    frame[at + 6] as u64) << 48) | ((frame[at + 7] as u64) << 56)
}

/// Whether the frame closes with the marker.
pub fn has_marker(frame: &[u8; FRAME_SIZE]) -> (found: bool)
    ensures
        found == ends_with_marker(frame@),
{
    let found: bool = frame[60] == 0xAD && frame[61] == 0xDE && frame[62] == 0xEF && frame[63]
        == 0xBE && frame[64] == 0xEF && frame[65] == 0xBE && frame[66] == 0xAD && frame[67] == 0xDE;
    proof {
        let tail: Seq<u8> = frame@.subrange(60, 68);
        if found {
            assert(tail =~= marker_bytes());
        } else {
            assert(tail[0] == frame@[60] && tail[1] == frame@[61] && tail[2] == frame@[62]
                && tail[3] == frame@[63] && tail[4] == frame@[64] && tail[5] == frame@[65]
                && tail[6] == frame@[66] && tail[7] == frame@[67]);
        }
    }
    found
}

/// Validates the checksum of a frame and parses its fields.
///
/// The checksum is the only thing checked: the marker is the synchronizer's
/// business.
pub fn decode(frame: &[u8; FRAME_SIZE]) -> (result: Result<TelemetryPacket, DecodeFailure>)
    ensures
        result == decode_spec(frame@),
{
    let stored: u16 = read_u16_le(frame, 0);
    let computed: u16 = crc16(&frame[2..68]);
    if stored != computed {
        return Err(DecodeFailure::ChecksumMismatch);
    }
    Ok(
        TelemetryPacket {
            running_us: read_u64_le(frame, 2),
            tvc_x: F64Bits { bits: read_u64_le(frame, 10) },
            tvc_z: F64Bits { bits: read_u64_le(frame, 18) },
            angle: F64Bits { bits: read_u64_le(frame, 26) },
            temperature: F64Bits { bits: read_u64_le(frame, 34) },
            v_sys: F64Bits { bits: read_u64_le(frame, 42) },
            v_bat: F64Bits { bits: read_u64_le(frame, 50) },
            offset: read_u16_le(frame, 58),
            v_bus_present: false,
        },
    )
}

fn write_u16_le(frame: &mut [u8; FRAME_SIZE], at: usize, value: u16)
    requires
        at + 2 <= FRAME_SIZE,
    ensures
        final(frame)@.subrange(at as int, at + 2) == u16_le_bytes(value),
        forall|j: int| 0 <= j < 68 && !(at <= j < at + 2) ==> final(frame)@[j] == old(frame)@[j],
{
    assert(value & 0xff < 256 && (value >> 8) & 0xff < 256) by (bit_vector);
    frame[at] = (value & 0xff) as u8;
    frame[at + 1] = ((value >> 8) & 0xff) as u8;
    assert(frame@.subrange(at as int, at + 2) =~= u16_le_bytes(value));
}

fn write_u64_le(frame: &mut [u8; FRAME_SIZE], at: usize, value: u64)
    requires
        at + 8 <= FRAME_SIZE,
    ensures
        final(frame)@.subrange(at as int, at + 8) == u64_le_bytes(value),
        forall|j: int| 0 <= j < 68 && !(at <= j < at + 8) ==> final(frame)@[j] == old(frame)@[j],
{
    assert(value & 0xff < 256 && (value >> 8) & 0xff < 256 && (value >> 16) & 0xff < 256 && (value
        >> 24) & 0xff < 256 && (value >> 32) & 0xff < 256 && (value >> 40) & 0xff < 256 && (value
        >> 48) & 0xff < 256 && (value >> 56) & 0xff < 256) by (bit_vector);
    frame[at] = (value & 0xff) as u8;
    frame[at + 1] = ((value >> 8) & 0xff) as u8;
    frame[at + 2] = ((value >> 16) & 0xff) as u8;
    frame[at + 3] = ((value >> 24) & 0xff) as u8;
    frame[at + 4] = ((value >> 32) & 0xff) as u8;
    frame[at + 5] = ((value >> 40) & 0xff) as u8;
    frame[at + 6] = ((value >> 48) & 0xff) as u8;
    frame[at + 7] = ((value >> 56) & 0xff) as u8;
    assert(frame@.subrange(at as int, at + 8) =~= u64_le_bytes(value));
}

/// Lays `packet` out as a frame, marker and checksum included.
pub fn encode(packet: &TelemetryPacket) -> (frame: [u8; FRAME_SIZE])
    ensures
        frame@ == encode_spec(*packet),
{
    let mut frame: [u8; FRAME_SIZE] = [0u8; FRAME_SIZE];
    write_u64_le(&mut frame, 2, packet.running_us);
    let ghost done: Seq<u8> = u64_le_bytes(packet.running_us);
    assert(frame@.subrange(2, 10) =~= done);
    write_u64_le(&mut frame, 10, packet.tvc_x.bits);
    assert(frame@.subrange(2, 18) =~= done + frame@.subrange(10, 18));
    let ghost done: Seq<u8> = done + u64_le_bytes(packet.tvc_x.bits);
    write_u64_le(&mut frame, 18, packet.tvc_z.bits);
    assert(frame@.subrange(2, 26) =~= done + frame@.subrange(18, 26));
    let ghost done: Seq<u8> = done + u64_le_bytes(packet.tvc_z.bits);
    write_u64_le(&mut frame, 26, packet.angle.bits);
    assert(frame@.subrange(2, 34) =~= done + frame@.subrange(26, 34));
    let ghost done: Seq<u8> = done + u64_le_bytes(packet.angle.bits);
    write_u64_le(&mut frame, 34, packet.temperature.bits);
    assert(frame@.subrange(2, 42) =~= done + frame@.subrange(34, 42));
    let ghost done: Seq<u8> = done + u64_le_bytes(packet.temperature.bits);
    write_u64_le(&mut frame, 42, packet.v_sys.bits);
    assert(frame@.subrange(2, 50) =~= done + frame@.subrange(42, 50));
    let ghost done: Seq<u8> = done + u64_le_bytes(packet.v_sys.bits);
    write_u64_le(&mut frame, 50, packet.v_bat.bits);
    assert(frame@.subrange(2, 58) =~= done + frame@.subrange(50, 58));
    let ghost done: Seq<u8> = done + u64_le_bytes(packet.v_bat.bits);
    write_u16_le(&mut frame, 58, packet.offset);
    assert(frame@.subrange(2, 60) =~= done + frame@.subrange(58, 60));
    let ghost done: Seq<u8> = done + u16_le_bytes(packet.offset);
    write_u64_le(&mut frame, 60, MARKER);
    assert(frame@.subrange(2, 68) =~= done + frame@.subrange(60, 68));
    proof {
        lemma_marker_bytes();
    }
    assert(frame@.subrange(2, 68) == encode_payload(*packet));
    let sum: u16 = crc16(&frame[2..68]);
    write_u16_le(&mut frame, 0, sum);
    assert(frame@.subrange(2, 68) =~= encode_payload(*packet));
    assert(frame@ =~= frame@.subrange(0, 2) + frame@.subrange(2, 68));
    frame
}

proof fn lemma_marker_bytes()
    ensures
        u64_le_bytes(MARKER) == marker_bytes(),
{
    assert((0xDEAD_BEEF_BEEF_DEADu64 & 0xff) == 0xAD && ((0xDEAD_BEEF_BEEF_DEADu64 >> 8) & 0xff)
        == 0xDE && ((0xDEAD_BEEF_BEEF_DEADu64 >> 16) & 0xff) == 0xEF && ((0xDEAD_BEEF_BEEF_DEADu64
        >> 24) & 0xff) == 0xBE && ((0xDEAD_BEEF_BEEF_DEADu64 >> 32) & 0xff) == 0xEF && ((
    0xDEAD_BEEF_BEEF_DEADu64 >> 40) & 0xff) == 0xBE && ((0xDEAD_BEEF_BEEF_DEADu64 >> 48) & 0xff)
        == 0xAD && ((0xDEAD_BEEF_BEEF_DEADu64 >> 56) & 0xff) == 0xDE) by (bit_vector);
    assert(u64_le_bytes(MARKER) =~= marker_bytes());
}

proof fn lemma_u16_round_trip(value: u16)
    by (bit_vector)
    ensures
        (((value & 0xff) as u8) as u16) | ((((value >> 8) & 0xff) as u8) as u16) << 8 == value,
{
}

proof fn lemma_u64_round_trip(value: u64)
    by (bit_vector)
    ensures
        (((value & 0xff) as u8) as u64) | ((((value >> 8) & 0xff) as u8) as u64) << 8 | ((((value
            >> 16) & 0xff) as u8) as u64) << 16 | ((((value >> 24) & 0xff) as u8) as u64) << 24 | ((((
        value >> 32) & 0xff) as u8) as u64) << 32 | ((((value >> 40) & 0xff) as u8) as u64) << 40
            | ((((value >> 48) & 0xff) as u8) as u64) << 48 | ((((value >> 56) & 0xff) as u8)
            as u64) << 56 == value,
{
}

proof fn lemma_u64_field(frame: Seq<u8>, at: int, value: u64)
    requires
        0 <= at,
        at + 8 <= frame.len(),
        frame.subrange(at, at + 8) == u64_le_bytes(value),
    ensures
        u64_le(frame, at) == value,
{
    let field: Seq<u8> = frame.subrange(at, at + 8);
    assert(frame[at] == field[0] && frame[at + 1] == field[1] && frame[at + 2] == field[2]
        && frame[at + 3] == field[3] && frame[at + 4] == field[4] && frame[at + 5] == field[5]
        && frame[at + 6] == field[6] && frame[at + 7] == field[7]);
    lemma_u64_round_trip(value);
}

proof fn lemma_u16_field(frame: Seq<u8>, at: int, value: u16)
    requires
        0 <= at,
        at + 2 <= frame.len(),
        frame.subrange(at, at + 2) == u16_le_bytes(value),
    ensures
        u16_le(frame, at) == value,
{
    let field: Seq<u8> = frame.subrange(at, at + 2);
    assert(frame[at] == field[0] && frame[at + 1] == field[1]);
    lemma_u16_round_trip(value);
}

/// Decoding undoes encoding: the frame of a record is `FRAME_SIZE` bytes
/// long, closes with the marker, passes the checksum and decodes to the same
/// record, but for `v_bus_present`, which the layout does not carry.
pub proof fn lemma_decode_inverts_encode(packet: TelemetryPacket)
    ensures
        encode_spec(packet).len() == FRAME_SIZE,
        ends_with_marker(encode_spec(packet)),
        decode_spec(encode_spec(packet)) == Ok::<TelemetryPacket, DecodeFailure>(
            TelemetryPacket { v_bus_present: false, ..packet },
        ),
{
    let frame: Seq<u8> = encode_spec(packet);
    let payload: Seq<u8> = encode_payload(packet);
    assert(frame.subrange(2, 68) =~= payload);
    assert(frame.subrange(0, 2) =~= u16_le_bytes(crc16_spec(payload)));
    lemma_u16_field(frame, 0, crc16_spec(payload));
    assert(frame.subrange(2, 10) =~= u64_le_bytes(packet.running_us));
    lemma_u64_field(frame, 2, packet.running_us);
    assert(frame.subrange(10, 18) =~= u64_le_bytes(packet.tvc_x.bits));
    lemma_u64_field(frame, 10, packet.tvc_x.bits);
    assert(frame.subrange(18, 26) =~= u64_le_bytes(packet.tvc_z.bits));
    lemma_u64_field(frame, 18, packet.tvc_z.bits);
    assert(frame.subrange(26, 34) =~= u64_le_bytes(packet.angle.bits));
    lemma_u64_field(frame, 26, packet.angle.bits);
    assert(frame.subrange(34, 42) =~= u64_le_bytes(packet.temperature.bits));
    lemma_u64_field(frame, 34, packet.temperature.bits);
    assert(frame.subrange(42, 50) =~= u64_le_bytes(packet.v_sys.bits));
    lemma_u64_field(frame, 42, packet.v_sys.bits);
    assert(frame.subrange(50, 58) =~= u64_le_bytes(packet.v_bat.bits));
    lemma_u64_field(frame, 50, packet.v_bat.bits);
    assert(frame.subrange(58, 60) =~= u16_le_bytes(packet.offset));
    lemma_u16_field(frame, 58, packet.offset);
    assert(frame.subrange(60, 68) =~= marker_bytes());
}

/// `frame` with bit `bit` of the byte at `at` inverted.
pub open spec fn flip_bit(frame: Seq<u8>, at: int, bit: u8) -> Seq<u8> {
    frame.update(at, frame[at] ^ (1u8 << bit))
}

proof fn lemma_flip_changes_byte(byte: u8, bit: u8)
    by (bit_vector)
    requires
        bit < 8,
    ensures
        byte ^ (1u8 << bit) != byte,
{
}

/// A frame that passes its checksum fails it once any one bit after the
/// checksum field is inverted.
pub proof fn lemma_bit_flip_is_rejected(frame: Seq<u8>, at: int, bit: u8)
    requires
        frame.len() == FRAME_SIZE,
        checksum_matches(frame),
        CHECKSUM_SIZE <= at < FRAME_SIZE,
        bit < 8,
    ensures
        decode_spec(flip_bit(frame, at, bit)) == Err::<TelemetryPacket, DecodeFailure>(
            DecodeFailure::ChecksumMismatch,
        ),
{
    let flipped: Seq<u8> = flip_bit(frame, at, bit);
    lemma_flip_changes_byte(frame[at], bit);
    lemma_crc_detects_single_byte_change(
        0xFFFF,
        checksummed_part(frame),
        checksummed_part(flipped),
        at - 2,
    );
}

} // verus!
