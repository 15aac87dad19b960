use qwasm2::constants::{
    AiFlags, ArmorType, AttackState, DamageFlags, DeadFlag, EntityFlags, ItemFlags, MeansOfDeath,
    MoveType, SvFlags, TakeDamage, WaterLevel, MAX_CLIP_PLANES, MOD_FRIENDLY_FIRE,
};

#[test]
fn entity_flags_match_c() {
    assert_eq!(EntityFlags::FLY().bits(), 0x01);
    assert_eq!(EntityFlags::SWIM().bits(), 0x02);
    assert_eq!(EntityFlags::GODMODE().bits(), 0x10);
    assert_eq!(EntityFlags::NO_KNOCKBACK().bits(), 0x0800);
    assert_eq!(EntityFlags::POWER_ARMOR().bits(), 0x1000);
    assert_eq!(EntityFlags::RESPAWN().bits(), 0x8000_0000);
}

#[test]
fn svflags_match_c() {
    assert_eq!(SvFlags::NOCLIENT().bits(), 0x01);
    assert_eq!(SvFlags::DEADMONSTER().bits(), 0x02);
    assert_eq!(SvFlags::MONSTER().bits(), 0x04);
}

#[test]
fn damage_flags_match_c() {
    assert_eq!(DamageFlags::RADIUS().bits(), 0x01);
    assert_eq!(DamageFlags::NO_ARMOR().bits(), 0x02);
    assert_eq!(DamageFlags::ENERGY().bits(), 0x04);
    assert_eq!(DamageFlags::NO_KNOCKBACK().bits(), 0x08);
    assert_eq!(DamageFlags::BULLET().bits(), 0x10);
    assert_eq!(DamageFlags::NO_PROTECTION().bits(), 0x20);
}

#[test]
fn means_of_death_values() {
    assert_eq!(MeansOfDeath::Unknown as i32, 0);
    assert_eq!(MeansOfDeath::Blaster as i32, 1);
    assert_eq!(MeansOfDeath::Railgun as i32, 11);
    assert_eq!(MeansOfDeath::TargetBlaster as i32, 33);
}

#[test]
fn item_flags_match_c() {
    assert_eq!(ItemFlags::WEAPON().bits(), 1);
    assert_eq!(ItemFlags::AMMO().bits(), 2);
    assert_eq!(ItemFlags::ARMOR().bits(), 4);
    assert_eq!(ItemFlags::POWERUP().bits(), 32);
    assert_eq!(ItemFlags::INSTANT_USE().bits(), 64);
}

#[test]
fn ai_flags_match_c() {
    assert_eq!(AiFlags::STAND_GROUND().bits(), 0x01);
    assert_eq!(AiFlags::HOLD_FRAME().bits(), 0x80);
    assert_eq!(AiFlags::COMBAT_POINT().bits(), 0x1000);
    assert_eq!(AiFlags::RESURRECTING().bits(), 0x4000);
}

#[test]
fn flag_combinations_work() {
    let flags = EntityFlags::FLY() | EntityFlags::SWIM();
    assert!(flags.contains(EntityFlags::FLY()));
    assert!(flags.contains(EntityFlags::SWIM()));
    assert!(!flags.contains(EntityFlags::GODMODE()));
}

#[test]
fn damage_flag_combinations() {
    let flags = DamageFlags::RADIUS() | DamageFlags::NO_ARMOR();
    assert!(flags.contains(DamageFlags::RADIUS()));
    assert!(flags.contains(DamageFlags::NO_ARMOR()));
    assert!(!flags.contains(DamageFlags::ENERGY()));
}

#[test]
fn movetype_default_is_none() {
    assert_eq!(MoveType::default(), MoveType::NoMove);
}

#[test]
fn deadflag_default_is_no() {
    assert_eq!(DeadFlag::default(), DeadFlag::No);
}

#[test]
fn takedamage_default_is_no() {
    assert_eq!(TakeDamage::default(), TakeDamage::No);
}

#[test]
fn armor_max_counts() {
    assert_eq!(ArmorType::Jacket.max_count(), 50);
    assert_eq!(ArmorType::Combat.max_count(), 100);
    assert_eq!(ArmorType::Body.max_count(), 200);
    assert_eq!(ArmorType::NoArmor.max_count(), 0);
}

#[test]
fn physics_constants_match_c() {
    assert_eq!(MAX_CLIP_PLANES, 5);
}

#[test]
fn mod_friendly_fire_flag() {
    assert_eq!(MOD_FRIENDLY_FIRE, 0x0800_0000);
    let mod_with_friendly = MeansOfDeath::Blaster as i32 | MOD_FRIENDLY_FIRE;
    assert_eq!(mod_with_friendly & MOD_FRIENDLY_FIRE, MOD_FRIENDLY_FIRE);
    assert_eq!(mod_with_friendly & !MOD_FRIENDLY_FIRE, MeansOfDeath::Blaster as i32);
}

#[test]
fn water_level_ordering() {
    assert!(WaterLevel::Dry < WaterLevel::Feet);
    assert!(WaterLevel::Feet < WaterLevel::Waist);
    assert!(WaterLevel::Waist < WaterLevel::Head);
}

#[test]
fn attack_state_values() {
    assert_eq!(AttackState::Straight.value(), 1);
    assert_eq!(AttackState::Missile.value(), 4);
    assert_eq!(AttackState::default(), AttackState::Straight);
}

#[test]
fn flag_union_and_empty() {
    let f = ItemFlags::WEAPON().union(ItemFlags::KEY());
    assert_eq!(f.bits(), 1 | 16);
    assert!(f.contains(ItemFlags::empty()));
    assert_eq!(EntityFlags::empty().bits(), 0);
}
