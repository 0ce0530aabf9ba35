use ground_station::codec::{
    decode, encode, has_marker, DecodeFailure, CHECKSUM_SIZE, FRAME_SIZE, MARKER, MARKER_SIZE,
};
use ground_station::crc::crc16;
use ground_station::telemetry::{F64Bits, TelemetryPacket};

fn number(value: f64) -> F64Bits {
    F64Bits::from_bits(value.to_bits())
}

fn sample() -> TelemetryPacket {
    TelemetryPacket {
        running_us: 0x0102_0304_0506_0708,
        tvc_x: number(1.5),
        tvc_z: number(-2.25),
        angle: number(3.141592653589793),
        temperature: number(36.6),
        v_sys: number(5.0),
        v_bat: number(11.1),
        offset: 0x1234,
        v_bus_present: false,
    }
}

fn sample_frame() -> [u8; FRAME_SIZE] {
    [
        0xfa, 0x9d, 0x08, 0x07, 0x06, 0x05, 0x04, 0x03, 0x02, 0x01, 0x00, 0x00, 0x00, 0x00, 0x00,
        0x00, 0xf8, 0x3f, 0x00, 0x00, 0x00, 0x00, 0x00, 0x00, 0x02, 0xc0, 0x18, 0x2d, 0x44, 0x54,
        0xfb, 0x21, 0x09, 0x40, 0xcd, 0xcc, 0xcc, 0xcc, 0xcc, 0x4c, 0x42, 0x40, 0x00, 0x00, 0x00,
        0x00, 0x00, 0x00, 0x14, 0x40, 0x33, 0x33, 0x33, 0x33, 0x33, 0x33, 0x26, 0x40, 0x34, 0x12,
        0xad, 0xde, 0xef, 0xbe, 0xef, 0xbe, 0xad, 0xde,
    ]
}

#[test]
fn layout_constants() {
    assert_eq!(CHECKSUM_SIZE, 2);
    assert_eq!(MARKER_SIZE, 8);
    assert_eq!(FRAME_SIZE, 2 + 8 + 6 * 8 + 2 + 8);
    assert_eq!(MARKER, 0xDEADBEEFBEEFDEAD);
}

#[test]
fn encode_gives_the_known_frame() {
    assert_eq!(encode(&sample()), sample_frame());
}

#[test]
fn decode_reads_the_known_frame() {
    assert_eq!(decode(&sample_frame()), Ok(sample()));
}

#[test]
fn decode_reads_floats_bit_for_bit() {
    let packet = decode(&sample_frame()).unwrap();
    assert_eq!(f64::from_bits(packet.tvc_x.bits), 1.5);
    assert_eq!(f64::from_bits(packet.tvc_z.bits), -2.25);
    assert_eq!(f64::from_bits(packet.angle.bits), 3.141592653589793);
    assert_eq!(f64::from_bits(packet.temperature.bits), 36.6);
    assert_eq!(f64::from_bits(packet.v_sys.bits), 5.0);
    assert_eq!(f64::from_bits(packet.v_bat.bits), 11.1);
    assert_eq!(packet.offset, 0x1234);
    assert_eq!(packet.running_us, 0x0102030405060708);
}

#[test]
fn checksum_covers_everything_after_the_checksum_field() {
    let frame = encode(&sample());
    let stored = u16::from_le_bytes([frame[0], frame[1]]);
    assert_eq!(stored, crc16(&frame[2..]));
    assert_eq!(stored, 0x9dfa);
}

#[test]
fn frame_of_an_all_zero_record() {
    let zero = TelemetryPacket {
        running_us: 0,
        tvc_x: number(0.0),
        tvc_z: number(0.0),
        angle: number(0.0),
        temperature: number(0.0),
        v_sys: number(0.0),
        v_bat: number(0.0),
        offset: 0,
        v_bus_present: false,
    };
    let frame = encode(&zero);
    assert_eq!(&frame[0..2], &[0x1b, 0x2d]);
    assert!(frame[2..60].iter().all(|byte| *byte == 0));
    assert_eq!(&frame[60..], &[0xad, 0xde, 0xef, 0xbe, 0xef, 0xbe, 0xad, 0xde]);
    assert_eq!(decode(&frame), Ok(zero));
}

#[test]
fn decode_undoes_encode_on_extreme_values() {
    let packet = TelemetryPacket {
        running_us: u64::MAX,
        tvc_x: number(f64::MAX),
        tvc_z: number(f64::MIN_POSITIVE),
        angle: number(f64::NEG_INFINITY),
        temperature: F64Bits::from_bits(u64::MAX),
        v_sys: number(-0.0),
        v_bat: number(1e-300),
        offset: u16::MAX,
        v_bus_present: false,
    };
    assert_eq!(decode(&encode(&packet)), Ok(packet));
}

#[test]
fn the_flag_is_not_on_the_wire() {
    let mut packet = sample();
    packet.v_bus_present = true;
    let frame = encode(&packet);
    assert_eq!(frame, sample_frame());
    assert_eq!(decode(&frame), Ok(sample()));
}

#[test]
fn every_single_bit_flip_after_the_checksum_is_rejected() {
    let frame = sample_frame();
    for at in CHECKSUM_SIZE..FRAME_SIZE {
        for bit in 0..8 {
            let mut damaged = frame;
            damaged[at] ^= 1 << bit;
            assert_eq!(decode(&damaged), Err(DecodeFailure::ChecksumMismatch), "byte {at} bit {bit}");
        }
    }
    assert_eq!(decode(&frame), Ok(sample()));
}

#[test]
fn a_flip_in_the_checksum_field_is_rejected_too() {
    let mut damaged = sample_frame();
    damaged[0] ^= 0x01;
    assert_eq!(decode(&damaged), Err(DecodeFailure::ChecksumMismatch));
}

#[test]
fn decode_leaves_the_marker_to_the_synchronizer() {
    let mut frame = sample_frame();
    frame[67] = 0x00;
    let sum = crc16(&frame[2..]).to_le_bytes();
    frame[0] = sum[0];
    frame[1] = sum[1];
    assert!(!has_marker(&frame));
    assert_eq!(decode(&frame), Ok(sample()));
}

#[test]
fn has_marker_looks_at_the_last_eight_bytes() {
    assert!(has_marker(&sample_frame()));
    assert!(!has_marker(&[0u8; FRAME_SIZE]));
    for at in 60..FRAME_SIZE {
        let mut frame = sample_frame();
        frame[at] ^= 0x80;
        assert!(!has_marker(&frame));
    }
    let mut frame = sample_frame();
    frame[59] ^= 0x80;
    assert!(has_marker(&frame));
}
