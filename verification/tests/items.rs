use qwasm2::constants::{ArmorType, ItemFlags, MAX_ITEMS};
use qwasm2::items::{
    ammo_max_for_tag, ammo_tag_to_slot, build_item_list, find_item_index,
    find_item_index_by_name, pickup_ammo, GameWorld, pickup_armor, pickup_health, pickup_key,
    pickup_powerup, pickup_weapon, PickupItem, PickupKind, PickupPlayer, AMMO_MAX_BANDOLIER,
    AMMO_MAX_DEFAULT, AMMO_MAX_PACK, AMMO_SHELLS, BODY_ARMOR_INFO, COMBAT_ARMOR_INFO,
    JACKET_ARMOR_INFO,
};

fn client(health: i32, max_health: i32) -> Option<PickupPlayer> {
    Some(PickupPlayer { health, max_health, inventory: Some(vec![0; MAX_ITEMS]) })
}

fn item(idx: usize) -> Option<PickupItem> {
    Some(PickupItem { item: Some(idx), count: 0 })
}

fn inv(p: &Option<PickupPlayer>) -> &Vec<i32> {
    p.as_ref().unwrap().inventory.as_ref().unwrap()
}

#[test]
fn item_list_has_correct_count() {
    let items = build_item_list();
    assert_eq!(items.len(), 42);
}

#[test]
fn item_list_first_is_null() {
    let items = build_item_list();
    assert_eq!(items[0].classname, "");
    assert!(items[0].pickup.is_none());
}

#[test]
fn item_list_armor_entries() {
    let items = build_item_list();
    assert_eq!(items[1].classname, "item_armor_body");
    assert_eq!(items[1].pickup_name, "Body Armor");
    assert!(items[1].flags.contains(ItemFlags::ARMOR()));
    assert!(items[1].armor_info.is_some());
    let info = items[1].armor_info.unwrap();
    assert_eq!(info.base_count, 100);
    assert_eq!(info.max_count, 200);
    assert_eq!(info.armor_type, ArmorType::Body);
}

#[test]
fn item_list_weapon_entries() {
    let items = build_item_list();
    assert_eq!(items[8].classname, "weapon_shotgun");
    assert_eq!(items[8].pickup_name, "Shotgun");
    assert!(items[8].flags.contains(ItemFlags::WEAPON()));
    assert_eq!(items[8].ammo, "Shells");
    assert_eq!(items[8].quantity, 1);
}

#[test]
fn item_list_ammo_entries() {
    let items = build_item_list();
    assert_eq!(items[18].classname, "ammo_shells");
    assert_eq!(items[18].pickup_name, "Shells");
    assert!(items[18].flags.contains(ItemFlags::AMMO()));
    assert_eq!(items[18].quantity, 10);
}

#[test]
fn item_list_powerup_entries() {
    let items = build_item_list();
    assert_eq!(items[23].classname, "item_quad");
    assert_eq!(items[23].pickup_name, "Quad Damage");
    assert!(items[23].flags.contains(ItemFlags::POWERUP()));
}

#[test]
fn item_list_key_entries() {
    let items = build_item_list();
    assert_eq!(items[32].classname, "key_data_cd");
    assert!(items[32].flags.contains(ItemFlags::KEY()));
    assert_eq!(items[32].pickup, Some(PickupKind::Key));
}

#[test]
fn find_item_by_classname() {
    let items = build_item_list();
    assert_eq!(find_item_index(&items, "weapon_shotgun"), Some(8));
    assert_eq!(find_item_index(&items, "ammo_rockets"), Some(21));
    assert_eq!(find_item_index(&items, "nonexistent"), None);
    assert_eq!(find_item_index(&items, "weapon_railgun"), Some(16));
    assert_eq!(find_item_index(&items, "item_quad"), Some(23));
}

#[test]
fn find_item_by_name() {
    let items = build_item_list();
    assert_eq!(find_item_index_by_name(&items, "Shells"), Some(18));
    assert_eq!(find_item_index_by_name(&items, "shells"), Some(18));
    assert_eq!(find_item_index_by_name(&items, "Rockets"), Some(21));
    assert_eq!(find_item_index_by_name(&items, "ROCKETS"), Some(21));
    assert_eq!(find_item_index_by_name(&items, "Rocket"), None);
}

#[test]
fn armor_info_values_match_c() {
    assert_eq!(JACKET_ARMOR_INFO().base_count, 25);
    assert_eq!(JACKET_ARMOR_INFO().max_count, 50);
    assert_eq!(COMBAT_ARMOR_INFO().base_count, 50);
    assert_eq!(COMBAT_ARMOR_INFO().max_count, 100);
    assert_eq!(BODY_ARMOR_INFO().base_count, 100);
    assert_eq!(BODY_ARMOR_INFO().max_count, 200);
}

#[test]
fn ammo_max_defaults() {
    assert_eq!(AMMO_MAX_DEFAULT().bullets, 200);
    assert_eq!(AMMO_MAX_DEFAULT().shells, 100);
    assert_eq!(AMMO_MAX_DEFAULT().rockets, 50);
    assert_eq!(AMMO_MAX_DEFAULT().cells, 200);
    assert_eq!(AMMO_MAX_DEFAULT().slugs, 50);
}

#[test]
fn ammo_max_bandolier_and_pack() {
    assert_eq!(AMMO_MAX_BANDOLIER().slugs, 75);
    assert_eq!(AMMO_MAX_PACK().rockets, 100);
}

#[test]
fn ammo_tags_map_to_slots_and_limits() {
    assert_eq!(ammo_tag_to_slot(AMMO_SHELLS), 50);
    assert_eq!(ammo_tag_to_slot(6), 55);
    assert_eq!(ammo_tag_to_slot(99), 0);
    assert_eq!(ammo_max_for_tag(2), 200);
    assert_eq!(ammo_max_for_tag(4), 50);
    assert_eq!(ammo_max_for_tag(0), 0);
}

#[test]
fn pickup_ammo_adds_to_inventory() {
    let items = build_item_list();
    let mut player = client(100, 100);
    assert!(pickup_ammo(&items, item(18), &mut player));
    assert_eq!(inv(&player)[50], 10);
}

#[test]
fn pickup_ammo_rejects_when_full() {
    let items = build_item_list();
    let mut player = client(100, 100);
    player.as_mut().unwrap().inventory.as_mut().unwrap()[50] = 100;
    assert!(!pickup_ammo(&items, item(18), &mut player));
    assert_eq!(inv(&player)[50], 100);
}

#[test]
fn pickup_ammo_caps_at_max() {
    let items = build_item_list();
    let mut player = client(100, 100);
    player.as_mut().unwrap().inventory.as_mut().unwrap()[50] = 95;
    assert!(pickup_ammo(&items, item(18), &mut player));
    assert_eq!(inv(&player)[50], 100);
}

#[test]
fn pickup_weapon_adds_to_inventory() {
    let items = build_item_list();
    let mut player = client(100, 100);
    assert!(pickup_weapon(&items, item(8), &mut player));
    assert_eq!(inv(&player)[8], 1);
    assert_eq!(inv(&player)[50], 10);
}

#[test]
fn pickup_health_increases_health() {
    let mut player = client(50, 100);
    let it = Some(PickupItem { item: Some(41), count: 25 });
    assert!(pickup_health(it, &mut player));
    assert_eq!(player.as_ref().unwrap().health, 75);
}

#[test]
fn pickup_health_caps_at_max() {
    let mut player = client(90, 100);
    let it = Some(PickupItem { item: None, count: 25 });
    assert!(pickup_health(it, &mut player));
    assert_eq!(player.as_ref().unwrap().health, 100);
}

#[test]
fn pickup_health_rejects_when_full() {
    let mut player = client(100, 100);
    let it = Some(PickupItem { item: None, count: 25 });
    assert!(!pickup_health(it, &mut player));
    assert_eq!(player.as_ref().unwrap().health, 100);
}

#[test]
fn pickup_armor_body_and_shard() {
    let items = build_item_list();
    let mut player = client(100, 100);
    assert!(pickup_armor(&items, item(1), &mut player));
    assert_eq!(inv(&player)[1], 100);
    assert!(pickup_armor(&items, item(4), &mut player));
    assert_eq!(inv(&player)[1], 102);
    player.as_mut().unwrap().inventory.as_mut().unwrap()[1] = 200;
    assert!(!pickup_armor(&items, item(1), &mut player));
    assert!(!pickup_armor(&items, None, &mut player));
}

#[test]
fn pickup_powerup_and_key_count_items() {
    let mut player = client(100, 100);
    assert!(pickup_powerup(item(23), &mut player));
    assert!(pickup_key(item(32), &mut player));
    assert!(pickup_key(item(32), &mut player));
    assert_eq!(inv(&player)[23], 1);
    assert_eq!(inv(&player)[32], 2);
    let mut nobody: Option<PickupPlayer> = None;
    assert!(pickup_key(item(32), &mut nobody));
    assert!(!pickup_key(Some(PickupItem { item: None, count: 0 }), &mut nobody));
}

#[test]
fn all_weapons_have_valid_ammo() {
    let items = build_item_list();
    for (i, it) in items.iter().enumerate() {
        if it.flags.contains(ItemFlags::WEAPON()) && !it.ammo.is_empty() {
            let ammo = find_item_index_by_name(&items, it.ammo);
            assert!(ammo.is_some(), "Weapon '{}' (index {}) references ammo '{}' which doesn't exist", it.pickup_name, i, it.ammo);
        }
    }
}

#[test]
fn all_items_have_unique_classnames() {
    let items = build_item_list();
    for i in 1..items.len() {
        for j in (i + 1)..items.len() {
            if !items[i].classname.is_empty() {
                assert_ne!(items[i].classname, items[j].classname, "Duplicate classname '{}' at indices {} and {}", items[i].classname, i, j);
            }
        }
    }
}

#[test]
fn gameworld_init_items() {
    let mut world = GameWorld::new();
    assert!(world.items.is_empty());

    world.init_items();
    assert_eq!(world.items.len(), 42);
}

#[test]
fn gameworld_find_item() {
    let mut world = GameWorld::new();
    world.init_items();

    assert_eq!(world.find_item("weapon_railgun"), Some(16));
    assert_eq!(world.find_item("item_quad"), Some(23));
    assert!(world.find_item("nonexistent").is_none());
}

#[test]
fn gameworld_find_item_before_init_is_none() {
    let world = GameWorld::new();
    assert!(world.find_item("weapon_railgun").is_none());
}
