use qwasm2::delta::{read_entity_bits, EntityWire, FloatChanges, U_REMOVE};
use qwasm2::net_msg::NetMsg;
use qwasm2::packet_entities::{read_packet_entities, write_packet_entities_list, SVC_PACKETENTITIES};

fn moved_all() -> FloatChanges {
    FloatChanges { origin: [true; 3], angles: [false; 3], old_origin: true }
}

#[test]
fn packet_entities_roundtrip() {
    let ent1 = EntityWire { number: 1, origin: [80, 160, 240], modelindex: 2, ..Default::default() };
    let ent2 = EntityWire { number: 5, origin: [400, 480, 560], modelindex: 3, ..Default::default() };
    let mut msg = NetMsg::new();
    write_packet_entities_list(&mut msg, &[], &[ent1, ent2], &[moved_all(), moved_all()]);
    msg.begin_reading();
    assert_eq!(msg.read_byte(), SVC_PACKETENTITIES);
    let decoded = read_packet_entities(&mut msg, &[], &vec![EntityWire::default(); 1024]);
    assert_eq!(decoded.len(), 2);
    assert_eq!(decoded[0].number, 1);
    assert_eq!(decoded[1].number, 5);
    assert_eq!(decoded[0].modelindex, 2);
    assert_eq!(decoded[1].modelindex, 3);
    assert_eq!(decoded[1].origin, [400, 480, 560]);
    assert_eq!(msg.read_cursor(), msg.len());
}

#[test]
fn empty_list_is_opcode_and_terminator() {
    let mut msg = NetMsg::new();
    write_packet_entities_list(&mut msg, &[], &[], &[]);
    assert_eq!(msg.len(), 3);
    msg.begin_reading();
    assert_eq!(msg.read_byte(), 18);
    assert_eq!(msg.read_byte(), 0);
    assert_eq!(msg.read_byte(), 0);
}

#[test]
fn gone_entities_are_removed_and_unchanged_ones_omitted() {
    let kept = EntityWire { number: 2, modelindex: 4, ..Default::default() };
    let gone = EntityWire { number: 300, ..Default::default() };
    let mut msg = NetMsg::new();
    write_packet_entities_list(&mut msg, &[kept, gone], &[kept], &[FloatChanges::default()]);
    msg.begin_reading();
    assert_eq!(msg.read_byte(), 18);
    let (num, bits) = read_entity_bits(&mut msg);
    assert_eq!(num, 300);
    assert_ne!(bits & U_REMOVE, 0);
    let (num, _) = read_entity_bits(&mut msg);
    assert_eq!(num, 0);
    assert_eq!(msg.read_cursor(), msg.len());
}

#[test]
fn read_list_applies_deltas_to_old_entities_and_drops_removed() {
    let a = EntityWire { number: 2, modelindex: 4, ..Default::default() };
    let b = EntityWire { number: 6, modelindex: 1, ..Default::default() };
    let a2 = EntityWire { modelindex: 5, ..a };
    let mut msg = NetMsg::new();
    write_packet_entities_list(&mut msg, &[a, b], &[a2], &[FloatChanges::default()]);
    msg.begin_reading();
    assert_eq!(msg.read_byte(), 18);
    let got = read_packet_entities(&mut msg, &[a, b], &vec![EntityWire::default(); 1024]);
    assert_eq!(got, vec![a2]);
    assert_eq!(msg.read_cursor(), msg.len());
}

#[test]
fn read_list_copies_untouched_old_entities() {
    let a = EntityWire { number: 2, modelindex: 4, ..Default::default() };
    let b = EntityWire { number: 6, modelindex: 1, ..Default::default() };
    let mut msg = NetMsg::new();
    write_packet_entities_list(&mut msg, &[a, b], &[a, b], &[FloatChanges::default(), FloatChanges::default()]);
    assert_eq!(msg.len(), 3);
    msg.begin_reading();
    msg.read_byte();
    let got = read_packet_entities(&mut msg, &[a, b], &[]);
    assert_eq!(got, vec![a, b]);
}
