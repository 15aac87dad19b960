use qwasm2::binary::{read_i16, read_i32, read_u16, read_u32, try_read_i16, try_read_i32, try_read_u16, try_read_u32};

#[test]
fn try_read_empty_returns_error() {
    assert!(try_read_u16(&[], 0).is_err());
    assert!(try_read_u32(&[], 0).is_err());
}

#[test]
fn try_read_oob_returns_error() {
    assert!(try_read_u16(&[0u8; 1], 0).is_err());
    assert!(try_read_i16(&[0u8; 1], 0).is_err());
    assert!(try_read_u32(&[0u8; 3], 0).is_err());
    assert!(try_read_i32(&[0u8; 3], 0).is_err());
}

#[test]
fn integer_reads_are_little_endian() {
    let buf = [0x2a, 0x00, 0xf9, 0xff, 0x78, 0x56, 0x34, 0x12, 0xff, 0xff, 0xff, 0xff];
    assert_eq!(read_u16(&buf, 0), 42);
    assert_eq!(read_i16(&buf, 2), -7);
    assert_eq!(read_u16(&buf, 2), 0xfff9);
    assert_eq!(read_u32(&buf, 4), 0x1234_5678);
    assert_eq!(read_i32(&buf, 8), -1);
    assert_eq!(try_read_u16(&buf, 0).unwrap(), 42);
    assert_eq!(try_read_i16(&buf, 2).unwrap(), -7);
    assert_eq!(try_read_u32(&buf, 4).unwrap(), 0x1234_5678);
    assert_eq!(try_read_i32(&buf, 8).unwrap(), -1);
}

#[test]
fn try_read_error_names_the_read() {
    let err = try_read_i32(&[1, 2], 0).unwrap_err();
    assert_eq!(err.display_text(), "drop: i32 read out of bounds");
}

#[test]
#[should_panic]
fn read_u16_oob_panics() {
    read_u16(&[0u8; 1], 0);
}

#[test]
#[should_panic]
fn read_i16_oob_panics() {
    read_i16(&[0u8; 1], 0);
}

#[test]
#[should_panic]
fn read_u32_oob_panics() {
    read_u32(&[0u8; 3], 0);
}

#[test]
#[should_panic]
fn read_i32_oob_panics() {
    read_i32(&[0u8; 3], 0);
}

#[test]
#[should_panic]
fn read_u16_empty_panics() {
    read_u16(&[], 0);
}

#[test]
#[should_panic]
fn read_u32_offset_oob_panics() {
    read_u32(&[0u8; 8], 6);
}

#[test]
fn try_read_at_huge_offset_is_error() {
    let data = [0u8; 8];
    assert!(try_read_u16(&data, usize::MAX).is_err());
    assert!(try_read_i16(&data, usize::MAX - 1).is_err());
    assert!(try_read_u32(&data, usize::MAX).is_err());
    assert!(try_read_i32(&data, usize::MAX - 2).is_err());
}
