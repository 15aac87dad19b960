use qwasm2::net_msg::NetMsg;
use qwasm2::player_delta::{
    apply_player_delta, pm_type_from_byte, read_player_state, write_player_state, PlayerChanges, PlayerWire, PmType,
};

const STAT_HEALTH: usize = 1;

fn angle16(f: f32) -> i32 {
    (f * 65536.0 / 360.0) as i32
}

#[test]
fn player_state_delta_roundtrip() {
    let old_ps = PlayerWire::default();
    let mut new_ps = PlayerWire::default();
    new_ps.viewangles = [angle16(10.0), angle16(45.0), 0];
    new_ps.fov = 90;
    new_ps.origin = [100, 200, 300];
    new_ps.gravity = -800;
    new_ps.stats[STAT_HEALTH] = 100;
    let moved = PlayerChanges { viewangles: true, fov: true, ..Default::default() };

    let mut msg = NetMsg::new();
    write_player_state(&mut msg, &old_ps, &new_ps, &moved);
    msg.begin_reading();
    let _ = msg.read_byte();
    let (d, stats) = read_player_state(&mut msg);
    let decoded = apply_player_delta(&PlayerWire::default(), &d, &stats);

    assert_eq!(decoded.origin, new_ps.origin);
    assert_eq!(decoded.gravity, new_ps.gravity);
    assert_eq!(decoded.stats[STAT_HEALTH], 100);
    assert_eq!(decoded.fov, 90);
    assert_eq!(decoded, new_ps);
    let va = decoded.viewangles;
    assert!((va[0] as f32 * (360.0 / 65536.0) - 10.0).abs() < 0.1);
    assert!((va[1] as f32 * (360.0 / 65536.0) - 45.0).abs() < 0.1);
    assert_eq!(msg.read_cursor(), msg.len());
}

#[test]
fn player_state_delta_stat_bit31_no_overflow() {
    let old_ps = PlayerWire::default();
    let mut new_ps = PlayerWire::default();
    new_ps.stats[31] = 42;

    let mut msg = NetMsg::new();
    write_player_state(&mut msg, &old_ps, &new_ps, &PlayerChanges::default());
    msg.begin_reading();
    let _ = msg.read_byte();
    let (d, stats) = read_player_state(&mut msg);
    assert_eq!(stats[31], Some(42));
    assert_eq!(stats[0], None);
    let decoded = apply_player_delta(&PlayerWire::default(), &d, &stats);
    assert_eq!(decoded.stats[31], 42);
}

#[test]
fn weapon_index_is_always_sent() {
    let ps = PlayerWire { gunindex: 3, ..Default::default() };
    let mut msg = NetMsg::new();
    write_player_state(&mut msg, &ps, &ps, &PlayerChanges::default());
    msg.begin_reading();
    assert_eq!(msg.read_byte(), 17);
    let (decoded, stats) = read_player_state(&mut msg);
    assert_eq!(decoded.gunindex, Some(3));
    assert_eq!(decoded.origin, None);
    assert!(stats.iter().all(|s| s.is_none()));
}

#[test]
fn pm_type_bytes() {
    assert_eq!(pm_type_from_byte(2), PmType::Dead);
    assert_eq!(pm_type_from_byte(9), PmType::Normal);
}
