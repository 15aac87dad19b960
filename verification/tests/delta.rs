use qwasm2::delta::{
    apply_entity_delta, read_delta_entity, read_entity_bits, write_delta_entity, EntityWire, FloatChanges, U_MODEL,
    U_NUMBER16, U_OLDORIGIN, U_ORIGIN1, U_ORIGIN2,
};
use qwasm2::net_msg::NetMsg;

fn coord(f: f32) -> i32 {
    (f * 8.0) as i32
}

#[test]
fn delta_entity_unchanged_is_compact() {
    let state = EntityWire::default();
    let mut buf = NetMsg::new();
    write_delta_entity(&mut buf, &state, &state, &FloatChanges::default(), false, false);
    assert!(buf.len() < 10);
    assert_eq!(buf.len(), 0);
}

#[test]
fn delta_entity_changed_fields() {
    let from = EntityWire::default();
    let mut to = EntityWire::default();
    to.number = 1;
    to.origin = [coord(100.0), coord(200.0), 0];
    to.modelindex = 5;
    let moved = FloatChanges { origin: [true, true, false], angles: [false; 3], old_origin: false };

    let mut buf = NetMsg::new();
    write_delta_entity(&mut buf, &from, &to, &moved, true, true);
    assert!(buf.len() >= 8, "delta encoding too small: {} bytes", buf.len());

    buf.begin_reading();
    let first_byte = buf.read_byte() as u32;
    let flags = if first_byte & 0x80 != 0 {
        let second_byte = buf.read_byte() as u32;
        first_byte | (second_byte << 8)
    } else {
        first_byte
    };
    assert_ne!(flags & U_ORIGIN1, 0, "ORIGIN1 flag should be set");
    assert_ne!(flags & U_ORIGIN2, 0, "ORIGIN2 flag should be set");
    assert_ne!(flags & U_MODEL, 0, "MODEL flag should be set");
}

#[test]
fn entity_delta_roundtrip() {
    let old_ent = EntityWire {
        number: 3,
        origin: [coord(100.0), coord(200.0), coord(300.0)],
        modelindex: 5,
        ..Default::default()
    };
    let new_ent = EntityWire {
        number: 3,
        origin: [coord(110.0), coord(200.0), coord(300.0)],
        modelindex: 7,
        frame: 2,
        ..Default::default()
    };
    let moved = FloatChanges { origin: [true, false, false], angles: [false; 3], old_origin: false };

    let mut msg = NetMsg::new();
    write_delta_entity(&mut msg, &old_ent, &new_ent, &moved, true, false);
    msg.begin_reading();
    let (num, bits) = read_entity_bits(&mut msg);
    let d = read_delta_entity(&mut msg, bits);
    let decoded = apply_entity_delta(&old_ent, num, &d);

    assert_eq!(decoded.number, 3);
    let x = decoded.origin[0] as f32 * (1.0 / 8.0);
    assert!((x - 110.0).abs() < 0.5);
    assert_eq!(decoded.origin[1] as f32 * (1.0 / 8.0), 200.0);
    assert_eq!(decoded.modelindex, 7);
    assert_eq!(decoded.frame, 2);
    assert_eq!(d.origin[1], None);
    assert_eq!(decoded.old_origin, old_ent.origin);
    assert_eq!(decoded.event, 0);
    assert!(!msg.is_overflowed());
    assert_eq!(msg.read_cursor(), msg.len());
}

#[test]
fn new_entity_carries_old_origin_and_wide_number() {
    let from = EntityWire::default();
    let to = EntityWire { number: 300, old_origin: [8, -16, 24], ..Default::default() };
    let mut msg = NetMsg::new();
    write_delta_entity(&mut msg, &from, &to, &FloatChanges::default(), false, true);
    msg.begin_reading();
    let (num, bits) = read_entity_bits(&mut msg);
    assert_eq!(num, 300);
    assert_ne!(bits & U_NUMBER16, 0);
    assert_ne!(bits & U_OLDORIGIN, 0);
    let decoded = read_delta_entity(&mut msg, bits);
    assert_eq!(decoded.old_origin, Some([8, -16, 24]));
    assert_eq!(msg.read_cursor(), msg.len());
}

#[test]
fn wide_values_use_long_fields() {
    let from = EntityWire::default();
    let to = EntityWire { number: 1, skinnum: 70000, effects: 0x1_0000, renderfx: 300, frame: 400, ..Default::default() };
    let mut msg = NetMsg::new();
    write_delta_entity(&mut msg, &from, &to, &FloatChanges::default(), false, false);
    msg.begin_reading();
    let (_, bits) = read_entity_bits(&mut msg);
    let decoded = read_delta_entity(&mut msg, bits);
    assert_eq!(decoded.skinnum, Some(70000));
    assert_eq!(decoded.effects, Some(0x1_0000));
    assert_eq!(decoded.renderfx, Some(300));
    assert_eq!(decoded.frame, Some(400));
}

#[test]
fn apply_keeps_unsent_fields_and_takes_sent_old_origin() {
    let from = EntityWire { number: 9, origin: [8, 16, 24], skinnum: 4, sound: 2, event: 5, ..Default::default() };
    let to = EntityWire { number: 9, origin: [8, 16, 24], skinnum: 300, old_origin: [1, 2, 3], ..Default::default() };
    let moved = FloatChanges { origin: [false; 3], angles: [false; 3], old_origin: true };
    let mut msg = NetMsg::new();
    write_delta_entity(&mut msg, &from, &to, &moved, false, false);
    msg.begin_reading();
    let (num, bits) = read_entity_bits(&mut msg);
    let d = read_delta_entity(&mut msg, bits);
    let r = apply_entity_delta(&from, num, &d);
    assert_eq!(r.skinnum, 300);
    assert_eq!(r.old_origin, [1, 2, 3]);
    assert_eq!(r.origin, [8, 16, 24]);
    assert_eq!(r.sound, 0);
    assert_eq!(r.event, 0);
    assert_eq!(msg.read_cursor(), msg.len());
}
