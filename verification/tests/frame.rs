use aqmon::frame::{get_u16_from_be, ParseError, PmsAQIData};

#[test]
fn test_read_correct_frame() {
    let raw_msg = vec![
        66, 77, 0, 28, 0, 0, 0, 0, 0, 0, 0, 0, 0, 0, 0, 0, 0, 150, 0, 48, 0, 16, 0, 2, 0, 0, 0, 0,
        151, 0, 2, 26,
    ];
    assert_eq!(raw_msg.len(), 32);

    let expected_msg = PmsAQIData {
        framelen: 28,
        pm10_standard: 0,
        pm25_standard: 0,
        pm100_standard: 0,
        pm10_env: 0,
        pm25_env: 0,
        pm100_env: 0,
        particles_03um: 150,
        particles_05um: 48,
        particles_10um: 16,
        particles_25um: 2,
        particles_50um: 0,
        particles_100um: 0,
        unused: 38656,
        checksum: 538,
    };

    let msg = PmsAQIData::from_bytes(&raw_msg).expect("Parses correct message");

    assert_eq!(msg, expected_msg);
}

#[test]
fn test_read_bad_checksum_frame() {
    let raw_msg = vec![
        66, 77, 0, 28, 0, 0, 0, 0, 0, 0, 0, 0, 0, 0, 0, 0, 0, 150, 0, 48, 0, 16, 0, 2, 0, 0, 0, 0,
        151, 0, 2, 13,
    ];

    let e = PmsAQIData::from_bytes(&raw_msg).expect_err("Bad checksum should fail");
    assert_eq!(e, ParseError::InvalidChecksum);
}

#[test]
fn test_read_invalid_start_byte_frame() {
    let raw_msg = vec![
        0, 77, 0, 28, 0, 0, 0, 0, 0, 0, 0, 0, 0, 0, 0, 0, 0, 150, 0, 48, 0, 16, 0, 2, 0, 0, 0, 0,
        151, 0, 2, 26,
    ];

    let e = PmsAQIData::from_bytes(&raw_msg).expect_err("Bad checksum should fail");
    assert_eq!(e, ParseError::InvalidStartByte);
}

#[test]
fn checksum_collisions_validate_identically() {
    // Two frames whose leading 30 bytes differ but sum to the same value
    // mod 2^16 validate identically under the same stored checksum word.
    let mut a: Vec<u8> = vec![0x42, 77];
    a.extend(std::iter::repeat(0).take(28));
    let mut b = a.clone();
    a[2] = 9; // field bytes differ ...
    b[5] = 9; // ... but the sums collide
    let sum: u16 = a.iter().map(|x| *x as u16).sum();
    for raw in [&mut a, &mut b] {
        raw.push((sum >> 8) as u8);
        raw.push((sum & 0xff) as u8);
    }
    let da = PmsAQIData::from_bytes(&a).expect("first colliding frame validates");
    let db = PmsAQIData::from_bytes(&b).expect("second colliding frame validates");
    assert_eq!(da.checksum, db.checksum);
    assert_ne!(da, db);
}

#[test]
fn field_extraction_is_big_endian() {
    let bytes = [0x12, 0x34, 0xAB, 0xCD];
    assert_eq!(get_u16_from_be(&bytes, 0), 0x1234);
    assert_eq!(get_u16_from_be(&bytes, 1), 0xABCD);
}
