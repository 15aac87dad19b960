use qwasm2::items::GameWorld;
use qwasm2::spawn_table::SpawnFn;

#[test]
fn register_target_spawns() {
    let mut world = GameWorld::new();
    world.register_target_spawns();
    assert!(world.spawn_table.get("target_explosion").is_some());
    assert!(world.spawn_table.get("target_changelevel").is_some());
    assert!(world.spawn_table.get("target_speaker").is_some());
    assert!(world.spawn_table.get("target_laser").is_some());
}

#[test]
fn register_monster_spawns() {
    let mut world = GameWorld::new();
    world.register_monster_spawns();
    assert!(world.spawn_table.get("monster_soldier").is_some());
    assert!(world.spawn_table.get("monster_soldier_light").is_some());
    assert!(world.spawn_table.get("monster_infantry").is_some());
    assert!(world.spawn_table.get("monster_tank").is_some());
    assert!(world.spawn_table.get("monster_boss2").is_some());
}

#[test]
fn spawn_table_maps_classnames_to_their_functions() {
    let mut world = GameWorld::new();
    assert!(world.spawn_table.get("target_laser").is_none());
    world.register_target_spawns();
    world.register_monster_spawns();
    assert_eq!(world.spawn_table.get("target_laser"), Some(SpawnFn::TargetGeneric));
    assert_eq!(world.spawn_table.get("target_secret"), Some(SpawnFn::TargetSecret));
    assert_eq!(world.spawn_table.get("monster_jorg"), Some(SpawnFn::MonsterJorg));
    assert!(world.spawn_table.get("monster_unknown").is_none());
}
