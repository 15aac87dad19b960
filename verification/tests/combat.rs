use qwasm2::combat::{finish_damage, plan_damage, DamageTarget, DAMAGE_NO_KNOCKBACK, DAMAGE_NO_PROTECTION, DAMAGE_RADIUS};

fn target(health: i32) -> DamageTarget {
    DamageTarget {
        takes_damage: true,
        is_monster: false,
        is_client: false,
        has_enemy: false,
        attacker_is_client: false,
        self_damage: false,
        health,
        no_knockback: false,
        godmode: false,
        pushable: true,
    }
}

fn hit(t: &DamageTarget, damage: i32, knockback: i32, dflags: u32, armor_save: i32) -> i32 {
    let plan = plan_damage(t, damage, knockback, dflags);
    assert!(plan.applies);
    finish_damage(t, &plan, armor_save).health
}

#[test]
fn t_damage_reduces_health() {
    assert_eq!(hit(&target(100), 30, 0, 0, 0), 70);
}

#[test]
fn t_damage_skips_no_takedamage() {
    let t = DamageTarget { takes_damage: false, ..target(100) };
    assert!(!plan_damage(&t, 30, 0, 0).applies);
}

#[test]
fn t_damage_godmode_prevents_damage() {
    let t = DamageTarget { godmode: true, ..target(100) };
    let plan = plan_damage(&t, 50, 0, 0);
    assert_eq!(plan.take, 0);
    assert_eq!(plan.save, 50);
    assert!(plan.god_effect);
    assert_eq!(finish_damage(&t, &plan, 0).health, 100);
}

#[test]
fn t_damage_no_protection_bypasses_godmode() {
    let t = DamageTarget { godmode: true, ..target(100) };
    assert_eq!(hit(&t, 50, 0, DAMAGE_NO_PROTECTION, 0), 50);
}

#[test]
fn t_damage_lethal_calls_killed() {
    let t = DamageTarget { is_monster: true, has_enemy: true, ..target(10) };
    let plan = plan_damage(&t, 50, 0, 0);
    let out = finish_damage(&t, &plan, 0);
    assert!(out.killed);
    assert!(out.mark_no_knockback);
    assert_eq!(out.health, -40);
}

#[test]
fn t_damage_calls_pain_when_surviving() {
    let t = target(100);
    let out = finish_damage(&t, &plan_damage(&t, 10, 0, 0), 0);
    assert!(!out.killed);
    assert_eq!(out.health, 90);
}

#[test]
fn t_damage_no_knockback_flag() {
    let t = DamageTarget { no_knockback: true, ..target(100) };
    assert_eq!(plan_damage(&t, 10, 100, 0).push_scale, 0);
    assert_eq!(plan_damage(&target(100), 10, 100, DAMAGE_NO_KNOCKBACK).push_scale, 0);
}

#[test]
fn t_damage_applies_knockback() {
    assert_eq!(plan_damage(&target(100), 10, 100, 0).push_scale, 500);
    let t = DamageTarget { self_damage: true, ..target(100) };
    assert_eq!(plan_damage(&t, 10, 100, 0).push_scale, 1600);
    let fixed = DamageTarget { pushable: false, ..target(100) };
    assert_eq!(plan_damage(&fixed, 10, 100, 0).push_scale, 0);
}

#[test]
fn t_damage_with_armor() {
    let t = DamageTarget { is_client: true, ..target(100) };
    let plan = plan_damage(&t, 50, 0, 0);
    let out = finish_damage(&t, &plan, 40);
    assert_eq!(out.health, 90);
    assert_eq!(out.take, 10);
    assert_eq!(out.save, 40);
    assert!(out.blood);
}

#[test]
fn t_damage_surprise_bonus() {
    let t = DamageTarget { is_monster: true, attacker_is_client: true, ..target(200) };
    assert_eq!(hit(&t, 30, 0, 0, 0), 140);
    assert_eq!(hit(&t, 30, 0, DAMAGE_RADIUS, 0), 170);
}

#[test]
fn sparks_for_objects() {
    let t = target(100);
    let out = finish_damage(&t, &plan_damage(&t, 5, 0, 0), 0);
    assert!(out.sparks);
    assert!(!out.blood);
}
