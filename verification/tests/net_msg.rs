use qwasm2::net_msg::NetMsg;
use qwasm2::usercmd::UserCmd;

#[test]
fn write_read_byte() {
    let mut buf = NetMsg::new();
    buf.write_byte(42);
    buf.begin_reading();
    assert_eq!(buf.read_byte(), 42);
}

#[test]
fn write_read_char_negative() {
    let mut buf = NetMsg::new();
    buf.write_char(-1);
    buf.begin_reading();
    assert_eq!(buf.read_char(), -1);
}

#[test]
fn write_read_short() {
    let mut buf = NetMsg::new();
    buf.write_short(1234);
    buf.write_short(-5678);
    buf.begin_reading();
    assert_eq!(buf.read_short(), 1234);
    assert_eq!(buf.read_short(), -5678);
}

#[test]
fn write_read_long() {
    let mut buf = NetMsg::new();
    buf.write_long(0x12345678);
    buf.write_long(-1);
    buf.begin_reading();
    assert_eq!(buf.read_long(), 0x12345678);
    assert_eq!(buf.read_long(), -1);
}

#[test]
fn write_read_string() {
    let mut buf = NetMsg::new();
    buf.write_string("hello world");
    buf.begin_reading();
    assert_eq!(buf.read_string(), "hello world");
}

#[test]
fn write_read_data() {
    let mut buf = NetMsg::new();
    buf.write_data(&[1, 2, 3, 4, 5]);
    buf.begin_reading();
    let mut out = [0u8; 5];
    buf.read_data(&mut out);
    assert_eq!(out, [1, 2, 3, 4, 5]);
}

#[test]
fn from_bytes() {
    let data = [42u8, 0x39, 0x05];
    let mut buf = NetMsg::from_bytes(&data);
    assert_eq!(buf.read_byte(), 42);
    assert_eq!(buf.read_short(), 1337);
}

#[test]
fn full_roundtrip() {
    let mut buf = NetMsg::with_capacity(1400);
    buf.write_byte(42);
    buf.write_short(1234);
    buf.write_long(-1);
    buf.write_string("hello");
    buf.begin_reading();
    assert_eq!(buf.read_byte(), 42);
    assert_eq!(buf.read_short(), 1234);
    assert_eq!(buf.read_long(), -1);
    assert_eq!(buf.read_string(), "hello");
}

#[test]
fn delta_usercmd_roundtrip() {
    let from = UserCmd::default();
    let to = UserCmd {
        msec: 16,
        buttons: 1,
        angles: [100, 200, 0],
        forwardmove: 400,
        sidemove: -200,
        upmove: 0,
        impulse: 0,
        lightlevel: 128,
    };
    let mut buf = NetMsg::new();
    buf.write_delta_usercmd(&from, &to);
    buf.begin_reading();
    let result = buf.read_delta_usercmd(&from);
    assert_eq!(result.msec, 16);
    assert_eq!(result.buttons, 1);
    assert_eq!(result.angles, [100, 200, 0]);
    assert_eq!(result.forwardmove, 400);
    assert_eq!(result.sidemove, -200);
    assert_eq!(result, to);
}

#[test]
fn delta_usercmd_unchanged_is_three_bytes() {
    let cmd = UserCmd { msec: 5, lightlevel: 7, ..UserCmd::default() };
    let mut buf = NetMsg::new();
    buf.write_delta_usercmd(&cmd, &cmd);
    assert_eq!(buf.data(), &[0u8, 5, 7]);
    buf.begin_reading();
    assert_eq!(buf.read_delta_usercmd(&cmd), cmd);
}

#[test]
fn clear_resets_buffer() {
    let mut buf = NetMsg::new();
    buf.write_byte(1);
    buf.write_byte(2);
    assert_eq!(buf.len(), 2);
    buf.clear();
    assert_eq!(buf.len(), 0);
    assert!(buf.is_empty());
}

#[test]
fn read_past_end_returns_sentinel() {
    let mut buf = NetMsg::new();
    buf.write_byte(42);
    buf.begin_reading();
    assert_eq!(buf.read_byte(), 42);
    assert_eq!(buf.read_byte(), -1);
    assert_eq!(buf.read_short(), -1);
    assert_eq!(buf.read_long(), -1);
    assert!(buf.is_overflowed());
}

#[test]
fn default_creates_empty() {
    let buf = NetMsg::default();
    assert!(buf.is_empty());
    assert_eq!(buf.len(), 0);
}

#[test]
fn short_and_long_are_little_endian() {
    let mut buf = NetMsg::new();
    buf.write_short(0x1234);
    buf.write_long(0x0A0B0C0D);
    assert_eq!(buf.data(), &[0x34u8, 0x12, 0x0D, 0x0C, 0x0B, 0x0A]);
    buf.begin_reading();
    assert_eq!(buf.read_cursor(), 0);
    assert_eq!(buf.read_short(), 0x1234);
    assert_eq!(buf.remaining_data(), &[0x0Du8, 0x0C, 0x0B, 0x0A]);
}

#[test]
fn read_char_and_byte_sign() {
    let mut buf = NetMsg::from_bytes(&[0xFFu8, 0xFF, 0x80]);
    assert_eq!(buf.read_char(), -1);
    assert_eq!(buf.read_byte(), 255);
    assert_eq!(buf.read_char(), -128);
}

#[test]
fn read_string_stops_at_nul_and_at_end() {
    let mut buf = NetMsg::from_bytes(b"ab\0cd");
    assert_eq!(buf.read_string(), "ab");
    assert_eq!(buf.read_string(), "cd");
    assert_eq!(buf.read_string(), "");
}
