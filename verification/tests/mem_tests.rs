use exfat::mem::{
    read_u16_be, read_u16_le, read_u32_be, read_u32_le, read_u64_be, read_u64_le, read_u8,
    write_u16_be, write_u16_le, write_u32_be, write_u32_le, write_u64_be, write_u64_le,
};

const BYTES: [u8; 10] = [0x01, 0x23, 0x45, 0x67, 0x89, 0xAB, 0xCD, 0xEF, 0x10, 0x32];

#[test]
fn reads_single_byte() {
    assert_eq!(read_u8(&BYTES, 0), 0x01);
    assert_eq!(read_u8(&BYTES, 9), 0x32);
}

#[test]
fn reads_u16_in_both_orders() {
    assert_eq!(read_u16_le(&BYTES, 0), 0x2301);
    assert_eq!(read_u16_be(&BYTES, 0), 0x0123);
    assert_eq!(read_u16_le(&BYTES, 8), 0x3210);
    assert_eq!(read_u16_be(&BYTES, 8), 0x1032);
}

#[test]
fn reads_u32_in_both_orders() {
    assert_eq!(read_u32_le(&BYTES, 0), 0x6745_2301);
    assert_eq!(read_u32_be(&BYTES, 0), 0x0123_4567);
    assert_eq!(read_u32_le(&BYTES, 6), 0x3210_EFCD);
    assert_eq!(read_u32_be(&BYTES, 6), 0xCDEF_1032);
}

#[test]
fn reads_u64_in_both_orders() {
    assert_eq!(read_u64_le(&BYTES, 0), 0xEFCD_AB89_6745_2301);
    assert_eq!(read_u64_be(&BYTES, 0), 0x0123_4567_89AB_CDEF);
    assert_eq!(read_u64_le(&BYTES, 2), 0x3210_EFCD_AB89_6745);
    assert_eq!(read_u64_be(&BYTES, 2), 0x4567_89AB_CDEF_1032);
}

#[test]
fn reads_agree_with_std() {
    assert_eq!(read_u16_le(&BYTES, 3), u16::from_le_bytes([BYTES[3], BYTES[4]]));
    assert_eq!(read_u16_be(&BYTES, 3), u16::from_be_bytes([BYTES[3], BYTES[4]]));
    let four = [BYTES[5], BYTES[6], BYTES[7], BYTES[8]];
    assert_eq!(read_u32_le(&BYTES, 5), u32::from_le_bytes(four));
    assert_eq!(read_u32_be(&BYTES, 5), u32::from_be_bytes(four));
    let mut eight = [0u8; 8];
    eight.copy_from_slice(&BYTES[1..9]);
    assert_eq!(read_u64_le(&BYTES, 1), u64::from_le_bytes(eight));
    assert_eq!(read_u64_be(&BYTES, 1), u64::from_be_bytes(eight));
}

#[test]
fn writes_u16_le_in_place() {
    let mut buf = [0xFFu8; 6];
    write_u16_le(&mut buf, 2, 0xBEEF);
    assert_eq!(buf, [0xFF, 0xFF, 0xEF, 0xBE, 0xFF, 0xFF]);
    assert_eq!(read_u16_le(&buf, 2), 0xBEEF);
}

#[test]
fn writes_u16_be_in_place() {
    let mut buf = [0xFFu8; 6];
    write_u16_be(&mut buf, 2, 0xBEEF);
    assert_eq!(buf, [0xFF, 0xFF, 0xBE, 0xEF, 0xFF, 0xFF]);
    assert_eq!(read_u16_be(&buf, 2), 0xBEEF);
}

#[test]
fn writes_u32_le_in_place() {
    let mut buf = [0u8; 6];
    write_u32_le(&mut buf, 1, 0xDEAD_BEEF);
    assert_eq!(buf, [0x00, 0xEF, 0xBE, 0xAD, 0xDE, 0x00]);
    assert_eq!(read_u32_le(&buf, 1), 0xDEAD_BEEF);
}

#[test]
fn writes_u32_be_in_place() {
    let mut buf = [0u8; 6];
    write_u32_be(&mut buf, 1, 0xDEAD_BEEF);
    assert_eq!(buf, [0x00, 0xDE, 0xAD, 0xBE, 0xEF, 0x00]);
    assert_eq!(read_u32_be(&buf, 1), 0xDEAD_BEEF);
}

#[test]
fn writes_u64_le_in_place() {
    let mut buf = [0x11u8; 10];
    write_u64_le(&mut buf, 1, 0x0102_0304_0506_0708);
    assert_eq!(buf, [0x11, 0x08, 0x07, 0x06, 0x05, 0x04, 0x03, 0x02, 0x01, 0x11]);
    assert_eq!(read_u64_le(&buf, 1), 0x0102_0304_0506_0708);
}

#[test]
fn writes_u64_be_in_place() {
    let mut buf = [0x11u8; 10];
    write_u64_be(&mut buf, 1, 0x0102_0304_0506_0708);
    assert_eq!(buf, [0x11, 0x01, 0x02, 0x03, 0x04, 0x05, 0x06, 0x07, 0x08, 0x11]);
    assert_eq!(read_u64_be(&buf, 1), 0x0102_0304_0506_0708);
}

#[test]
fn written_values_read_back() {
    let values: [u64; 5] = [0, 1, 0xFF, 0x8000_0000_0000_0000, u64::MAX];
    for v in values {
        let mut buf = [0u8; 8];
        write_u64_le(&mut buf, 0, v);
        assert_eq!(read_u64_le(&buf, 0), v);
        assert_eq!(buf, v.to_le_bytes());
        write_u64_be(&mut buf, 0, v);
        assert_eq!(read_u64_be(&buf, 0), v);
        assert_eq!(buf, v.to_be_bytes());
        let w = v as u32;
        write_u32_le(&mut buf, 4, w);
        assert_eq!(read_u32_le(&buf, 4), w);
        write_u32_be(&mut buf, 0, w);
        assert_eq!(read_u32_be(&buf, 0), w);
        let h = v as u16;
        write_u16_le(&mut buf, 6, h);
        assert_eq!(read_u16_le(&buf, 6), h);
        write_u16_be(&mut buf, 3, h);
        assert_eq!(read_u16_be(&buf, 3), h);
    }
}
