use qwasm2::delta::{EntityWire, FloatChanges};
use qwasm2::frame::{FrameOutcome, FrameRing};
use qwasm2::net_msg::NetMsg;
use qwasm2::packet_entities::write_packet_entities_list;
use qwasm2::player_delta::{write_player_state, PlayerChanges, PlayerWire};

const UPDATE_MASK: i32 = 15;

fn baselines() -> Vec<EntityWire> {
    vec![EntityWire::default(); 1024]
}

fn write_empty_frame(msg: &mut NetMsg, serverframe: i32, deltaframe: i32, entities: &[EntityWire]) {
    let zero = PlayerWire::default();
    msg.write_long(serverframe);
    msg.write_long(deltaframe);
    msg.write_byte(0);
    msg.write_byte(0);
    write_player_state(msg, &zero, &zero, &PlayerChanges::default());
    let moved: Vec<FloatChanges> = entities
        .iter()
        .map(|_| FloatChanges { origin: [true; 3], angles: [false; 3], old_origin: true })
        .collect();
    write_packet_entities_list(msg, &[], entities, &moved);
}

fn make_frame_msg(serverframe: i32, deltaframe: i32) -> NetMsg {
    let mut msg = NetMsg::new();
    write_empty_frame(&mut msg, serverframe, deltaframe, &[]);
    msg.begin_reading();
    msg
}

#[test]
fn parse_frame_sets_serverframe() {
    let mut ring = FrameRing::new();
    let mut msg = make_frame_msg(42, -1);
    assert_eq!(ring.parse_frame(&mut msg, &baselines()), FrameOutcome::Stored);
    assert_eq!(ring.frame.serverframe, 42);
    assert_eq!(ring.frame.deltaframe, -1);
    assert_eq!(ring.frame.servertime, 4200);
}

#[test]
fn parse_frame_stores_in_ring_buffer() {
    let mut ring = FrameRing::new();
    let mut msg = make_frame_msg(5, -1);
    ring.parse_frame(&mut msg, &baselines());
    let idx = (5 & UPDATE_MASK) as usize;
    assert_eq!(ring.frames[idx].serverframe, 5);
    assert!(ring.frames[idx].valid);
}

#[test]
fn parse_frame_areabits_roundtrip() {
    let mut ring = FrameRing::new();
    let zero = PlayerWire::default();
    let mut msg = NetMsg::new();
    msg.write_long(1);
    msg.write_long(-1);
    msg.write_byte(0);
    msg.write_byte(4);
    msg.write_byte(0xAB);
    msg.write_byte(0xCD);
    msg.write_byte(0xEF);
    msg.write_byte(0x12);
    write_player_state(&mut msg, &zero, &zero, &PlayerChanges::default());
    write_packet_entities_list(&mut msg, &[], &[], &[]);
    msg.begin_reading();
    ring.parse_frame(&mut msg, &baselines());
    assert_eq!(ring.frame.areabits[0], 0xAB);
    assert_eq!(ring.frame.areabits[1], 0xCD);
    assert_eq!(ring.frame.areabits[2], 0xEF);
    assert_eq!(ring.frame.areabits[3], 0x12);
    assert_eq!(ring.frame.areabits[4], 0x00);
    assert_eq!(ring.frame.areabits.len(), 32);
}

#[test]
fn delta_from_a_missing_frame_is_stored_invalid() {
    let mut ring = FrameRing::new();
    let mut msg = make_frame_msg(7, 3);
    assert_eq!(ring.parse_frame(&mut msg, &baselines()), FrameOutcome::Stored);
    assert!(!ring.frame.valid);
    assert!(!ring.frames[7].valid);
}

#[test]
fn delta_from_a_stored_frame_keeps_its_entities() {
    let mut ring = FrameRing::new();
    let ent = EntityWire { number: 4, modelindex: 9, ..Default::default() };
    let mut msg = NetMsg::new();
    write_empty_frame(&mut msg, 3, -1, &[ent]);
    msg.begin_reading();
    ring.parse_frame(&mut msg, &baselines());
    assert_eq!(ring.frames[3].entities.len(), 1);
    let mut msg = make_frame_msg(4, 3);
    ring.parse_frame(&mut msg, &baselines());
    assert!(ring.frame.valid);
    assert_eq!(ring.frame.entities.len(), 1);
    assert_eq!(ring.frame.entities[0].modelindex, 9);
}

#[test]
fn missing_player_info_stores_nothing() {
    let mut ring = FrameRing::new();
    let mut msg = NetMsg::new();
    msg.write_long(9);
    msg.write_long(-1);
    msg.write_byte(0);
    msg.write_byte(0);
    msg.write_byte(18);
    msg.begin_reading();
    assert_eq!(ring.parse_frame(&mut msg, &baselines()), FrameOutcome::NoPlayerInfo(18));
    assert_eq!(ring.frame.serverframe, 0);
    assert!(!ring.frames[9].valid);
}
