//! The integer decisions of dealing damage: whether the target takes it,
//! the surprise bonus, knockback, god mode, what armor saved, the health
//! left and whether the target dies. The knockback push and the armor's
//! share are computed in floating point by the caller between the two
//! steps.

use vstd::prelude::*;

verus! {

pub const DAMAGE_RADIUS: u32 = 0x0000_0001;
pub const DAMAGE_NO_ARMOR: u32 = 0x0000_0002;
pub const DAMAGE_NO_KNOCKBACK: u32 = 0x0000_0008;
pub const DAMAGE_NO_PROTECTION: u32 = 0x0000_0020;

/// What the damage rules read of the target and the attacker.
#[derive(Debug, Clone, Copy, PartialEq, Eq)]
pub struct DamageTarget {
    pub takes_damage: bool,
    pub is_monster: bool,
    pub is_client: bool,
    pub has_enemy: bool,
    pub attacker_is_client: bool,
    pub self_damage: bool,
    pub health: i32,
    pub no_knockback: bool,
    pub godmode: bool,
    /// Its move type is not none, bounce, push or stop.
    pub pushable: bool,
}

/// What is decided before armor: the damage after the surprise bonus, the
/// knockback push (its scale, 0 for none), and the damage taken and saved
/// so far (god mode saves it all and shows an effect).
#[derive(Debug, Clone, Copy, PartialEq, Eq)]
pub struct DamagePlan {
    pub applies: bool,
    pub damage: i32,
    pub push_scale: i32,
    pub take: i32,
    pub save: i32,
    pub god_effect: bool,
}

/// How the damage ended: what was taken and saved, the health after, the
/// impact effect (blood for monsters and clients, sparks otherwise, none
/// when nothing was taken), whether the target died, and whether it is
/// now marked to take no more knockback.
#[derive(Debug, Clone, Copy, PartialEq, Eq)]
pub struct DamageOutcome {
    pub take: i32,
    pub save: i32,
    pub health: i32,
    pub blood: bool,
    pub sparks: bool,
    pub killed: bool,
    pub mark_no_knockback: bool,
}

/// A monster that has no enemy yet, hit by a client other than by splash
/// damage while alive, takes double damage.
pub open spec fn surprised(t: DamageTarget, dflags: u32) -> bool {
    dflags & DAMAGE_RADIUS == 0 && t.is_monster && t.attacker_is_client && !t.has_enemy && t.health > 0
}

/// The decisions before armor.
pub open spec fn damage_plan(t: DamageTarget, damage: i32, knockback: i32, dflags: u32) -> DamagePlan {
    let dmg = if surprised(t, dflags) { damage * 2 } else { damage as int };
    let kb = if t.no_knockback { 0 } else { knockback };
    let push = dflags & DAMAGE_NO_KNOCKBACK == 0 && kb > 0 && t.pushable;
    let god = t.godmode && dflags & DAMAGE_NO_PROTECTION == 0;
    DamagePlan {
        applies: t.takes_damage,
        damage: dmg as i32,
        push_scale: if push { if t.self_damage { 1600 } else { 500 } } else { 0 },
        take: if god { 0 } else { dmg as i32 },
        save: if god { dmg as i32 } else { 0 },
        god_effect: god,
    }
}

/// Decide what happens before armor to a target hit for `damage` with
/// `knockback` and the damage flags `dflags`. When `applies` is false the
/// target takes no damage and nothing else happens.
pub fn plan_damage(t: &DamageTarget, damage: i32, knockback: i32, dflags: u32) -> (r: DamagePlan)
    requires
        surprised(*t, dflags) ==> -0x4000_0000 <= damage <= 0x3FFF_FFFF,
    ensures
        r == damage_plan(*t, damage, knockback, dflags),
{
    let surprise = dflags & DAMAGE_RADIUS == 0 && t.is_monster && t.attacker_is_client && !t.has_enemy && t.health > 0;
    let dmg = if surprise { damage * 2 } else { damage };
    let kb = if t.no_knockback { 0 } else { knockback };
    let push = dflags & DAMAGE_NO_KNOCKBACK == 0 && kb > 0 && t.pushable;
    let god = t.godmode && dflags & DAMAGE_NO_PROTECTION == 0;
    DamagePlan {
        applies: t.takes_damage,
        damage: dmg,
        push_scale: if push { if t.self_damage { 1600 } else { 500 } } else { 0 },
        take: if god { 0 } else { dmg },
        save: if god { dmg } else { 0 },
        god_effect: god,
    }
}

/// The end of the damage, given the armor's share `armor_save` of what the
/// plan takes (0 when nothing is taken).
pub open spec fn damage_outcome(t: DamageTarget, plan: DamagePlan, armor_save: i32) -> DamageOutcome {
    let take = if plan.take > 0 { plan.take - armor_save } else { plan.take as int };
    let save = if plan.take > 0 { plan.save + armor_save } else { plan.save as int };
    let health = if take > 0 { t.health - take } else { t.health as int };
    DamageOutcome {
        take: take as i32,
        save: save as i32,
        health: health as i32,
        blood: take > 0 && (t.is_monster || t.is_client),
        sparks: take > 0 && !(t.is_monster || t.is_client),
        killed: health <= 0,
        mark_no_knockback: health <= 0 && (t.is_monster || t.is_client),
    }
}

/// Finish the damage: armor takes its share of what is taken, the rest
/// comes off the health, and a target left at 0 or below dies.
pub fn finish_damage(t: &DamageTarget, plan: &DamagePlan, armor_save: i32) -> (r: DamageOutcome)
    requires
        plan.take > 0 ==> 0 <= armor_save <= plan.take,
        plan.take > 0 ==> plan.save + armor_save <= i32::MAX,
        plan.take > 0 ==> t.health - (plan.take - armor_save) >= i32::MIN,
    ensures
        r == damage_outcome(*t, *plan, armor_save),
{
    let take = if plan.take > 0 { plan.take - armor_save } else { plan.take };
    let save = if plan.take > 0 { plan.save + armor_save } else { plan.save };
    let health = if take > 0 { t.health - take } else { t.health };
    let hurt = t.is_monster || t.is_client;
    DamageOutcome {
        take,
        save,
        health,
        blood: take > 0 && hurt,
        sparks: take > 0 && !hurt,
        killed: health <= 0,
        mark_no_knockback: health <= 0 && hurt,
    }
}

/// The surprise bonus doubles the damage exactly for a living monster with
/// no enemy yet, hit by a client other than by splash damage; any other
/// hit keeps the damage as given. In particular a monster that already
/// has an enemy takes the damage as given.
pub proof fn law_surprise_bonus(t: DamageTarget, damage: i32, knockback: i32, dflags: u32)
    requires
        -0x4000_0000 <= damage <= 0x3FFF_FFFF,
    ensures
        t.has_enemy ==> damage_plan(t, damage, knockback, dflags).damage == damage,
        !t.is_monster ==> damage_plan(t, damage, knockback, dflags).damage == damage,
        !t.attacker_is_client ==> damage_plan(t, damage, knockback, dflags).damage == damage,
        t.health <= 0 ==> damage_plan(t, damage, knockback, dflags).damage == damage,
        dflags & DAMAGE_RADIUS != 0 ==> damage_plan(t, damage, knockback, dflags).damage == damage,
        (dflags & DAMAGE_RADIUS == 0 && t.is_monster && t.attacker_is_client && !t.has_enemy && t.health > 0)
            ==> damage_plan(t, damage, knockback, dflags).damage == 2 * damage,
{
}

/// Knockback pushes only a pushable target that is not marked against it,
/// for a positive knockback without the no-knockback damage flag; a push
/// on oneself is stronger.
pub proof fn law_knockback(t: DamageTarget, damage: i32, knockback: i32, dflags: u32)
    ensures
        (damage_plan(t, damage, knockback, dflags).push_scale != 0) == (!t.no_knockback && knockback > 0 && t.pushable
            && dflags & DAMAGE_NO_KNOCKBACK == 0),
        damage_plan(t, damage, knockback, dflags).push_scale != 0 ==> damage_plan(t, damage, knockback, dflags).push_scale
            == if t.self_damage { 1600i32 } else { 500i32 },
{
}

/// God mode saves all the damage unless the damage ignores protection;
/// otherwise all of it is to be taken; either way taken plus saved is the
/// damage.
pub proof fn law_godmode(t: DamageTarget, damage: i32, knockback: i32, dflags: u32)
    ensures
        ({
            let p = damage_plan(t, damage, knockback, dflags);
            &&& p.take + p.save == p.damage
            &&& p.applies == t.takes_damage
            &&& p.god_effect == (t.godmode && dflags & DAMAGE_NO_PROTECTION == 0)
            &&& (t.godmode && dflags & DAMAGE_NO_PROTECTION == 0) ==> p.take == 0 && p.save == p.damage
            &&& !(t.godmode && dflags & DAMAGE_NO_PROTECTION == 0) ==> p.take == p.damage && p.save == 0
        }),
{
}

/// Armor's share comes out of what is taken; the rest comes off the
/// health, nothing else does; the target dies exactly when its health
/// ends at 0 or below; taken plus saved is what the plan had.
pub proof fn law_finish(t: DamageTarget, plan: DamagePlan, armor_save: i32)
    requires
        plan.take > 0 ==> 0 <= armor_save <= plan.take,
        plan.take > 0 ==> plan.save + armor_save <= i32::MAX,
        plan.take > 0 ==> t.health - (plan.take - armor_save) >= i32::MIN,
    ensures
        ({
            let o = damage_outcome(t, plan, armor_save);
            &&& o.take + o.save == plan.take + plan.save
            &&& plan.take > 0 ==> o.take == plan.take - armor_save && o.save == plan.save + armor_save
            &&& plan.take <= 0 ==> o.take == plan.take && o.save == plan.save
            &&& o.blood == (o.take > 0 && (t.is_monster || t.is_client))
            &&& o.health == if o.take > 0 { t.health - o.take } else { t.health as int }
            &&& o.killed == (o.health <= 0)
            &&& o.mark_no_knockback == (o.killed && (t.is_monster || t.is_client))
            &&& !(o.blood && o.sparks)
            &&& (o.blood || o.sparks) == (o.take > 0)
        }),
{
}

} // verus!
