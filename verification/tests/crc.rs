use ground_station::crc::{crc16, crc16_update, CRC_INIT};

#[test]
fn check_value_of_the_standard_test_vector() {
    assert_eq!(crc16(b"123456789"), 0x29B1);
}

#[test]
fn empty_input_leaves_the_initial_register() {
    assert_eq!(crc16(&[]), 0xFFFF);
    assert_eq!(CRC_INIT, 0xFFFF);
}

#[test]
fn update_feeds_one_byte() {
    let mut reg = CRC_INIT;
    for byte in b"123456789" {
        reg = crc16_update(reg, *byte);
    }
    assert_eq!(reg, 0x29B1);
    assert_eq!(crc16_update(0xFFFF, b'A'), crc16(b"A"));
    assert_eq!(crc16(b"A"), 0xB915);
}
