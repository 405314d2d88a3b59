use ore_deploy::wire::{read_i16_le, read_u64_le, write_u32_le, write_u64_le};

#[test]
fn u64_is_read_lowest_byte_first() {
    let bytes = [0xFF, 0x08, 0x07, 0x06, 0x05, 0x04, 0x03, 0x02, 0x01, 0xEE];
    assert_eq!(read_u64_le(&bytes, 1), 0x0102_0304_0506_0708);
    assert_eq!(read_u64_le(&bytes, 0), 0x0203_0405_0607_08FF);
    assert_eq!(read_u64_le(&[0xFF; 8], 0), u64::MAX);
    assert_eq!(read_u64_le(&[0; 8], 0), 0);
}

#[test]
fn i16_is_read_in_twos_complement() {
    assert_eq!(read_i16_le(&[0x0C, 0xFE], 0), -500);
    assert_eq!(read_i16_le(&[0x96, 0x00], 0), 150);
    assert_eq!(read_i16_le(&[0xFF, 0xFF], 0), -1);
    assert_eq!(read_i16_le(&[0x00, 0x80], 0), i16::MIN);
    assert_eq!(read_i16_le(&[0xFF, 0x7F], 0), i16::MAX);
    assert_eq!(read_i16_le(&[7, 0x34, 0x12], 1), 0x1234);
}

#[test]
fn u64_is_written_lowest_byte_first() {
    assert_eq!(write_u64_le(0x0102_0304_0506_0708), [8, 7, 6, 5, 4, 3, 2, 1]);
    assert_eq!(write_u64_le(u64::MAX), [255; 8]);
    assert_eq!(write_u64_le(256), [0, 1, 0, 0, 0, 0, 0, 0]);
}

#[test]
fn u32_is_written_lowest_byte_first() {
    assert_eq!(write_u32_le(0x0A0B_0C0D), [0x0D, 0x0C, 0x0B, 0x0A]);
    assert_eq!(write_u32_le(1 << 24), [0, 0, 0, 1]);
}

#[test]
fn written_bytes_read_back() {
    for value in [0u64, 1, 255, 256, 29_031, 1 << 32, u64::MAX - 1, u64::MAX] {
        assert_eq!(read_u64_le(&write_u64_le(value), 0), value);
        assert_eq!(write_u64_le(value), value.to_le_bytes());
    }
    for value in [0u32, 1, 1 << 24, u32::MAX] {
        assert_eq!(write_u32_le(value), value.to_le_bytes());
    }
}

#[test]
fn reading_agrees_with_a_cast_of_the_bytes() {
    let bytes: [u8; 12] = [0x10, 0x32, 0x54, 0x76, 0x98, 0xBA, 0xDC, 0xFE, 0x01, 0x80, 0xFF, 0x7F];
    for offset in 0..=4 {
        let cast: u64 = bytemuck::pod_read_unaligned(&bytes[offset..offset + 8]);
        assert_eq!(read_u64_le(&bytes, offset), u64::from_le(cast));
    }
    for offset in 0..=10 {
        let cast: i16 = bytemuck::pod_read_unaligned(&bytes[offset..offset + 2]);
        assert_eq!(read_i16_le(&bytes, offset), i16::from_le(cast));
    }
}
