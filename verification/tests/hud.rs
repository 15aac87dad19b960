use qwasm2::constants::MAX_ITEMS;
use qwasm2::hud::{update_player_stats, STAT_ARMOR, STAT_FRAGS, STAT_HEALTH};
use qwasm2::items::PickupPlayer;

fn client(health: i32) -> Option<PickupPlayer> {
    Some(PickupPlayer { health, max_health: 100, inventory: Some(vec![0; MAX_ITEMS]) })
}

#[test]
fn stats_reflect_health() {
    let player = client(75);
    let mut stats = vec![0i16; 32];
    update_player_stats(&player, 0, &mut stats);
    assert_eq!(stats[STAT_HEALTH], 75);
}

#[test]
fn stats_reflect_armor() {
    let mut player = client(100);
    player.as_mut().unwrap().inventory.as_mut().unwrap()[1] = 50;
    let mut stats = vec![0i16; 32];
    update_player_stats(&player, 0, &mut stats);
    assert_eq!(stats[STAT_ARMOR], 50);
}

#[test]
fn stats_reflect_frags_and_leave_other_slots() {
    let player = client(100);
    let mut stats = vec![9i16; 32];
    update_player_stats(&player, 3, &mut stats);
    assert_eq!(stats[STAT_FRAGS], 3);
    assert_eq!(stats[0], 9);
}

#[test]
fn stats_unchanged_without_client() {
    let mut stats = vec![4i16; 32];
    update_player_stats(&None, 3, &mut stats);
    update_player_stats(&Some(PickupPlayer { health: 1, max_health: 1, inventory: None }), 3, &mut stats);
    assert_eq!(stats, vec![4i16; 32]);
}
