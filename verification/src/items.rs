//! Item definitions and the rules for picking items up.
//!
//! A pickup reads and writes a few plain values of two entities: the item
//! entity (which item it is, and for health its amount) and the player
//! entity (health, and for clients the inventory). Those values are passed
//! in directly.

use vstd::prelude::*;
use crate::constants::{ArmorType, ItemFlags, MAX_ITEMS};
use crate::spawn_table::{SpawnFn, SpawnTable};
use crate::text::{chars_eq_ignore_ascii_case, chars_equal, eq_ignore_ascii_case, str_chars};

verus! {

// ---------------------------------------------------------------------------
// Armor and ammo limits
// ---------------------------------------------------------------------------

/// Armor counts of an armor type (its protection factors belong to
/// `ArmorType`).
#[derive(Debug, Clone, Copy, PartialEq, Eq)]
pub struct ArmorInfo {
    /// Armor value given when picked up.
    pub base_count: i32,
    /// Most armor of this type a player can hold.
    pub max_count: i32,
    /// Which armor this is.
    pub armor_type: ArmorType,
}

pub open spec fn jacket_armor() -> ArmorInfo {
    ArmorInfo { base_count: 25, max_count: 50, armor_type: ArmorType::Jacket }
}

pub open spec fn combat_armor() -> ArmorInfo {
    ArmorInfo { base_count: 50, max_count: 100, armor_type: ArmorType::Combat }
}

pub open spec fn body_armor() -> ArmorInfo {
    ArmorInfo { base_count: 100, max_count: 200, armor_type: ArmorType::Body }
}

/// Jacket armor: weak but common.
#[allow(non_snake_case)]
pub fn JACKET_ARMOR_INFO() -> (r: ArmorInfo)
    ensures
        r == jacket_armor(),
{
    ArmorInfo { base_count: 25, max_count: 50, armor_type: ArmorType::Jacket }
}

/// Combat armor: medium tier.
#[allow(non_snake_case)]
pub fn COMBAT_ARMOR_INFO() -> (r: ArmorInfo)
    ensures
        r == combat_armor(),
{
    ArmorInfo { base_count: 50, max_count: 100, armor_type: ArmorType::Combat }
}

/// Body armor: best tier.
#[allow(non_snake_case)]
pub fn BODY_ARMOR_INFO() -> (r: ArmorInfo)
    ensures
        r == body_armor(),
{
    ArmorInfo { base_count: 100, max_count: 200, armor_type: ArmorType::Body }
}

/// Maximum ammo counts.
#[derive(Debug, Clone, Copy, PartialEq, Eq)]
pub struct AmmoMax {
    pub bullets: i32,
    pub shells: i32,
    pub rockets: i32,
    pub grenades: i32,
    pub cells: i32,
    pub slugs: i32,
}

pub open spec fn ammo_max_default() -> AmmoMax {
    AmmoMax { bullets: 200, shells: 100, rockets: 50, grenades: 50, cells: 200, slugs: 50 }
}

/// Default ammo limits.
#[allow(non_snake_case)]
pub fn AMMO_MAX_DEFAULT() -> (r: AmmoMax)
    ensures
        r == ammo_max_default(),
{
    AmmoMax { bullets: 200, shells: 100, rockets: 50, grenades: 50, cells: 200, slugs: 50 }
}

/// Ammo limits with a bandolier.
#[allow(non_snake_case)]
pub fn AMMO_MAX_BANDOLIER() -> (r: AmmoMax)
    ensures
        r == (AmmoMax { bullets: 250, shells: 150, rockets: 50, grenades: 50, cells: 250, slugs: 75 }),
{
    AmmoMax { bullets: 250, shells: 150, rockets: 50, grenades: 50, cells: 250, slugs: 75 }
}

/// Ammo limits with an ammo pack.
#[allow(non_snake_case)]
pub fn AMMO_MAX_PACK() -> (r: AmmoMax)
    ensures
        r == (AmmoMax { bullets: 300, shells: 200, rockets: 100, grenades: 100, cells: 300, slugs: 100 }),
{
    AmmoMax { bullets: 300, shells: 200, rockets: 100, grenades: 100, cells: 300, slugs: 100 }
}

// ---------------------------------------------------------------------------
// Tags
// ---------------------------------------------------------------------------

pub const ARMOR_SHARD: i32 = 4;

pub const AMMO_SHELLS: i32 = 1;
pub const AMMO_BULLETS: i32 = 2;
pub const AMMO_CELLS: i32 = 3;
pub const AMMO_ROCKETS: i32 = 4;
pub const AMMO_SLUGS: i32 = 5;
pub const AMMO_GRENADES: i32 = 6;

pub const WEAP_BLASTER: i32 = 1;
pub const WEAP_SHOTGUN: i32 = 2;
pub const WEAP_SUPERSHOTGUN: i32 = 3;
pub const WEAP_MACHINEGUN: i32 = 4;
pub const WEAP_CHAINGUN: i32 = 5;
pub const WEAP_GRENADELAUNCHER: i32 = 7;
pub const WEAP_ROCKETLAUNCHER: i32 = 8;
pub const WEAP_HYPERBLASTER: i32 = 9;
pub const WEAP_RAILGUN: i32 = 10;
pub const WEAP_BFG: i32 = 11;

pub const FLAG_WEAPON: u32 = 1;
pub const FLAG_AMMO: u32 = 2;
pub const FLAG_ARMOR: u32 = 4;
pub const FLAG_STAY_COOP: u32 = 8;
pub const FLAG_KEY: u32 = 16;
pub const FLAG_POWERUP: u32 = 32;
pub const FLAG_INSTANT_USE: u32 = 64;

/// Inventory slot of the armor count.
pub const ARMOR_SLOT: usize = 1;

// ---------------------------------------------------------------------------
// Item table
// ---------------------------------------------------------------------------

/// Which pickup rule an item follows.
#[derive(Debug, Clone, Copy, PartialEq, Eq)]
pub enum PickupKind {
    Armor,
    Ammo,
    Weapon,
    Health,
    Powerup,
    Key,
}

/// A single item definition.
#[derive(Debug, Clone, Copy)]
pub struct ItemDef {
    /// Spawn classname.
    pub classname: &'static str,
    /// Sound played on pickup.
    pub pickup_sound: &'static str,
    /// World model path.
    pub world_model: &'static str,
    /// HUD icon name.
    pub icon: &'static str,
    /// Display name for pickup messages.
    pub pickup_name: &'static str,
    /// Ammo per pickup, or ammo per shot for weapons.
    pub quantity: i32,
    /// Name of the ammo a weapon uses.
    pub ammo: &'static str,
    /// Classification flags.
    pub flags: ItemFlags,
    /// Sub-type tag (armor, ammo or weapon number).
    pub tag: i32,
    /// Armor counts, for the three armor types.
    pub armor_info: Option<ArmorInfo>,
    /// Pickup rule.
    pub pickup: Option<PickupKind>,
}

/// One row of the item table.
pub open spec fn row(
    classname: &'static str,
    pickup_sound: &'static str,
    world_model: &'static str,
    icon: &'static str,
    pickup_name: &'static str,
    quantity: i32,
    ammo: &'static str,
    flags: u32,
    tag: i32,
    armor_info: Option<ArmorInfo>,
    pickup: Option<PickupKind>,
) -> ItemDef {
    ItemDef {
        classname,
        pickup_sound,
        world_model,
        icon,
        pickup_name,
        quantity,
        ammo,
        flags: ItemFlags { bits: flags },
        tag,
        armor_info,
        pickup,
    }
}

fn item(
    classname: &'static str,
    pickup_sound: &'static str,
    world_model: &'static str,
    icon: &'static str,
    pickup_name: &'static str,
    quantity: i32,
    ammo: &'static str,
    flags: u32,
    tag: i32,
    armor_info: Option<ArmorInfo>,
    pickup: Option<PickupKind>,
) -> (r: ItemDef)
    ensures
        r == row(
            classname,
            pickup_sound,
            world_model,
            icon,
            pickup_name,
            quantity,
            ammo,
            flags,
            tag,
            armor_info,
            pickup,
        ),
{
    ItemDef {
        classname,
        pickup_sound,
        world_model,
        icon,
        pickup_name,
        quantity,
        ammo,
        flags: ItemFlags { bits: flags },
        tag,
        armor_info,
        pickup,
    }
}

/// The base game's items; index 0 is the null item.
pub open spec fn item_table() -> Seq<ItemDef> {
    seq![
        row("", "", "", "", "", 0, "", 0, 0, None, None),
        row("item_armor_body", "misc/ar1_pkup.wav", "models/items/armor/body/tris.md2", "i_bodyarmor", "Body Armor", 0, "", FLAG_ARMOR, 3, Some(body_armor()), Some(PickupKind::Armor)),
        row("item_armor_combat", "misc/ar1_pkup.wav", "models/items/armor/combat/tris.md2", "i_combatarmor", "Combat Armor", 0, "", FLAG_ARMOR, 2, Some(combat_armor()), Some(PickupKind::Armor)),
        row("item_armor_jacket", "misc/ar1_pkup.wav", "models/items/armor/jacket/tris.md2", "i_jacketarmor", "Jacket Armor", 0, "", FLAG_ARMOR, 1, Some(jacket_armor()), Some(PickupKind::Armor)),
        row("item_armor_shard", "misc/ar2_pkup.wav", "models/items/armor/shard/tris.md2", "i_jacketarmor", "Armor Shard", 2, "", FLAG_ARMOR, ARMOR_SHARD, None, Some(PickupKind::Armor)),
        row("item_power_screen", "misc/ar3_pkup.wav", "models/items/armor/screen/tris.md2", "i_powerscreen", "Power Screen", 60, "", FLAG_ARMOR, 0, None, None),
        row("item_power_shield", "misc/ar3_pkup.wav", "models/items/armor/shield/tris.md2", "i_powershield", "Power Shield", 60, "", FLAG_ARMOR, 0, None, None),
        row("weapon_blaster", "misc/w_pkup.wav", "", "w_blaster", "Blaster", 0, "", FLAG_WEAPON | FLAG_STAY_COOP, WEAP_BLASTER, None, Some(PickupKind::Weapon)),
        row("weapon_shotgun", "misc/w_pkup.wav", "models/weapons/g_shotg/tris.md2", "w_shotgun", "Shotgun", 1, "Shells", FLAG_WEAPON | FLAG_STAY_COOP, WEAP_SHOTGUN, None, Some(PickupKind::Weapon)),
        row("weapon_supershotgun", "misc/w_pkup.wav", "models/weapons/g_shotg2/tris.md2", "w_sshotgun", "Super Shotgun", 2, "Shells", FLAG_WEAPON | FLAG_STAY_COOP, WEAP_SUPERSHOTGUN, None, Some(PickupKind::Weapon)),
        row("weapon_machinegun", "misc/w_pkup.wav", "models/weapons/g_machn/tris.md2", "w_machinegun", "Machinegun", 1, "Bullets", FLAG_WEAPON | FLAG_STAY_COOP, WEAP_MACHINEGUN, None, Some(PickupKind::Weapon)),
        row("weapon_chaingun", "misc/w_pkup.wav", "models/weapons/g_chain/tris.md2", "w_chaingun", "Chaingun", 1, "Bullets", FLAG_WEAPON | FLAG_STAY_COOP, WEAP_CHAINGUN, None, Some(PickupKind::Weapon)),
        row("ammo_grenades", "misc/am_pkup.wav", "models/items/ammo/grenades/medium/tris.md2", "a_grenades", "Grenades", 5, "grenades", FLAG_AMMO | FLAG_WEAPON, AMMO_GRENADES, None, Some(PickupKind::Ammo)),
        row("weapon_grenadelauncher", "misc/w_pkup.wav", "models/weapons/g_launch/tris.md2", "w_glauncher", "Grenade Launcher", 1, "Grenades", FLAG_WEAPON | FLAG_STAY_COOP, WEAP_GRENADELAUNCHER, None, Some(PickupKind::Weapon)),
        row("weapon_rocketlauncher", "misc/w_pkup.wav", "models/weapons/g_rocket/tris.md2", "w_rlauncher", "Rocket Launcher", 1, "Rockets", FLAG_WEAPON | FLAG_STAY_COOP, WEAP_ROCKETLAUNCHER, None, Some(PickupKind::Weapon)),
        row("weapon_hyperblaster", "misc/w_pkup.wav", "models/weapons/g_hyperb/tris.md2", "w_hyperblaster", "HyperBlaster", 1, "Cells", FLAG_WEAPON | FLAG_STAY_COOP, WEAP_HYPERBLASTER, None, Some(PickupKind::Weapon)),
        row("weapon_railgun", "misc/w_pkup.wav", "models/weapons/g_rail/tris.md2", "w_railgun", "Railgun", 1, "Slugs", FLAG_WEAPON | FLAG_STAY_COOP, WEAP_RAILGUN, None, Some(PickupKind::Weapon)),
        row("weapon_bfg", "misc/w_pkup.wav", "models/weapons/g_bfg/tris.md2", "w_bfg", "BFG10K", 50, "Cells", FLAG_WEAPON | FLAG_STAY_COOP, WEAP_BFG, None, Some(PickupKind::Weapon)),
        row("ammo_shells", "misc/am_pkup.wav", "models/items/ammo/shells/medium/tris.md2", "a_shells", "Shells", 10, "", FLAG_AMMO, AMMO_SHELLS, None, Some(PickupKind::Ammo)),
        row("ammo_bullets", "misc/am_pkup.wav", "models/items/ammo/bullets/medium/tris.md2", "a_bullets", "Bullets", 50, "", FLAG_AMMO, AMMO_BULLETS, None, Some(PickupKind::Ammo)),
        row("ammo_cells", "misc/am_pkup.wav", "models/items/ammo/cells/medium/tris.md2", "a_cells", "Cells", 50, "", FLAG_AMMO, AMMO_CELLS, None, Some(PickupKind::Ammo)),
        row("ammo_rockets", "misc/am_pkup.wav", "models/items/ammo/rockets/medium/tris.md2", "a_rockets", "Rockets", 5, "", FLAG_AMMO, AMMO_ROCKETS, None, Some(PickupKind::Ammo)),
        row("ammo_slugs", "misc/am_pkup.wav", "models/items/ammo/slugs/medium/tris.md2", "a_slugs", "Slugs", 10, "", FLAG_AMMO, AMMO_SLUGS, None, Some(PickupKind::Ammo)),
        row("item_quad", "items/pkup.wav", "models/items/quaddama/tris.md2", "p_quad", "Quad Damage", 60, "", FLAG_POWERUP | FLAG_INSTANT_USE, 0, None, Some(PickupKind::Powerup)),
        row("item_invulnerability", "items/pkup.wav", "models/items/invulner/tris.md2", "p_invulnerability", "Invulnerability", 300, "", FLAG_POWERUP | FLAG_INSTANT_USE, 0, None, Some(PickupKind::Powerup)),
        row("item_silencer", "items/pkup.wav", "models/items/silencer/tris.md2", "p_silencer", "Silencer", 60, "", FLAG_POWERUP | FLAG_INSTANT_USE, 0, None, Some(PickupKind::Powerup)),
        row("item_breather", "items/pkup.wav", "models/items/breather/tris.md2", "p_rebreather", "Rebreather", 60, "", FLAG_STAY_COOP | FLAG_POWERUP | FLAG_INSTANT_USE, 0, None, Some(PickupKind::Powerup)),
        row("item_enviro", "items/pkup.wav", "models/items/enviro/tris.md2", "p_envirosuit", "Environment Suit", 60, "", FLAG_STAY_COOP | FLAG_POWERUP | FLAG_INSTANT_USE, 0, None, Some(PickupKind::Powerup)),
        row("item_ancient_head", "items/pkup.wav", "models/items/c_head/tris.md2", "i_fixme", "Ancient Head", 60, "", 0, 0, None, Some(PickupKind::Powerup)),
        row("item_adrenaline", "items/pkup.wav", "models/items/adrenal/tris.md2", "p_adrenaline", "Adrenaline", 60, "", 0, 0, None, Some(PickupKind::Powerup)),
        row("item_bandolier", "items/pkup.wav", "models/items/band/tris.md2", "p_bandolier", "Bandolier", 60, "", 0, 0, None, Some(PickupKind::Powerup)),
        row("item_pack", "items/pkup.wav", "models/items/pack/tris.md2", "i_pack", "Ammo Pack", 180, "", 0, 0, None, Some(PickupKind::Powerup)),
        row("key_data_cd", "items/pkup.wav", "models/items/keys/data_cd/tris.md2", "k_datacd", "Data CD", 0, "", FLAG_STAY_COOP | FLAG_KEY, 0, None, Some(PickupKind::Key)),
        row("key_power_cube", "items/pkup.wav", "models/items/keys/power/tris.md2", "k_powercube", "Power Cube", 0, "", FLAG_STAY_COOP | FLAG_KEY, 0, None, Some(PickupKind::Key)),
        row("key_pyramid", "items/pkup.wav", "models/items/keys/pyramid/tris.md2", "k_pyramid", "Pyramid Key", 0, "", FLAG_STAY_COOP | FLAG_KEY, 0, None, Some(PickupKind::Key)),
        row("key_data_spinner", "items/pkup.wav", "models/items/keys/spinner/tris.md2", "k_dataspin", "Data Spinner", 0, "", FLAG_STAY_COOP | FLAG_KEY, 0, None, Some(PickupKind::Key)),
        row("key_pass", "items/pkup.wav", "models/items/keys/pass/tris.md2", "k_security", "Security Pass", 0, "", FLAG_STAY_COOP | FLAG_KEY, 0, None, Some(PickupKind::Key)),
        row("key_blue_key", "items/pkup.wav", "models/items/keys/key/tris.md2", "k_bluekey", "Blue Key", 0, "", FLAG_STAY_COOP | FLAG_KEY, 0, None, Some(PickupKind::Key)),
        row("key_red_key", "items/pkup.wav", "models/items/keys/red_key/tris.md2", "k_redkey", "Red Key", 0, "", FLAG_STAY_COOP | FLAG_KEY, 0, None, Some(PickupKind::Key)),
        row("key_commander_head", "items/pkup.wav", "models/monsters/commandr/head/tris.md2", "k_comhead", "Commander's Head", 0, "", FLAG_STAY_COOP | FLAG_KEY, 0, None, Some(PickupKind::Key)),
        row("key_airstrike_target", "items/pkup.wav", "models/items/keys/target/tris.md2", "i_airstrike", "Airstrike Marker", 0, "", FLAG_STAY_COOP | FLAG_KEY, 0, None, Some(PickupKind::Key)),
        row("item_health", "items/pkup.wav", "", "i_health", "Health", 0, "", 0, 0, None, Some(PickupKind::Health)),
    ]
}

/// Build the complete item list.
pub fn build_item_list() -> (r: Vec<ItemDef>)
    ensures
        r@ == item_table(),
{
    let mut v: Vec<ItemDef> = Vec::new();
    v.push(item("", "", "", "", "", 0, "", 0, 0, None, None));
    v.push(item("item_armor_body", "misc/ar1_pkup.wav", "models/items/armor/body/tris.md2", "i_bodyarmor", "Body Armor", 0, "", FLAG_ARMOR, 3, Some(BODY_ARMOR_INFO()), Some(PickupKind::Armor)));
    v.push(item("item_armor_combat", "misc/ar1_pkup.wav", "models/items/armor/combat/tris.md2", "i_combatarmor", "Combat Armor", 0, "", FLAG_ARMOR, 2, Some(COMBAT_ARMOR_INFO()), Some(PickupKind::Armor)));
    v.push(item("item_armor_jacket", "misc/ar1_pkup.wav", "models/items/armor/jacket/tris.md2", "i_jacketarmor", "Jacket Armor", 0, "", FLAG_ARMOR, 1, Some(JACKET_ARMOR_INFO()), Some(PickupKind::Armor)));
    v.push(item("item_armor_shard", "misc/ar2_pkup.wav", "models/items/armor/shard/tris.md2", "i_jacketarmor", "Armor Shard", 2, "", FLAG_ARMOR, ARMOR_SHARD, None, Some(PickupKind::Armor)));
    v.push(item("item_power_screen", "misc/ar3_pkup.wav", "models/items/armor/screen/tris.md2", "i_powerscreen", "Power Screen", 60, "", FLAG_ARMOR, 0, None, None));
    v.push(item("item_power_shield", "misc/ar3_pkup.wav", "models/items/armor/shield/tris.md2", "i_powershield", "Power Shield", 60, "", FLAG_ARMOR, 0, None, None));
    v.push(item("weapon_blaster", "misc/w_pkup.wav", "", "w_blaster", "Blaster", 0, "", FLAG_WEAPON | FLAG_STAY_COOP, WEAP_BLASTER, None, Some(PickupKind::Weapon)));
    v.push(item("weapon_shotgun", "misc/w_pkup.wav", "models/weapons/g_shotg/tris.md2", "w_shotgun", "Shotgun", 1, "Shells", FLAG_WEAPON | FLAG_STAY_COOP, WEAP_SHOTGUN, None, Some(PickupKind::Weapon)));
    v.push(item("weapon_supershotgun", "misc/w_pkup.wav", "models/weapons/g_shotg2/tris.md2", "w_sshotgun", "Super Shotgun", 2, "Shells", FLAG_WEAPON | FLAG_STAY_COOP, WEAP_SUPERSHOTGUN, None, Some(PickupKind::Weapon)));
    v.push(item("weapon_machinegun", "misc/w_pkup.wav", "models/weapons/g_machn/tris.md2", "w_machinegun", "Machinegun", 1, "Bullets", FLAG_WEAPON | FLAG_STAY_COOP, WEAP_MACHINEGUN, None, Some(PickupKind::Weapon)));
    v.push(item("weapon_chaingun", "misc/w_pkup.wav", "models/weapons/g_chain/tris.md2", "w_chaingun", "Chaingun", 1, "Bullets", FLAG_WEAPON | FLAG_STAY_COOP, WEAP_CHAINGUN, None, Some(PickupKind::Weapon)));
    v.push(item("ammo_grenades", "misc/am_pkup.wav", "models/items/ammo/grenades/medium/tris.md2", "a_grenades", "Grenades", 5, "grenades", FLAG_AMMO | FLAG_WEAPON, AMMO_GRENADES, None, Some(PickupKind::Ammo)));
    v.push(item("weapon_grenadelauncher", "misc/w_pkup.wav", "models/weapons/g_launch/tris.md2", "w_glauncher", "Grenade Launcher", 1, "Grenades", FLAG_WEAPON | FLAG_STAY_COOP, WEAP_GRENADELAUNCHER, None, Some(PickupKind::Weapon)));
    v.push(item("weapon_rocketlauncher", "misc/w_pkup.wav", "models/weapons/g_rocket/tris.md2", "w_rlauncher", "Rocket Launcher", 1, "Rockets", FLAG_WEAPON | FLAG_STAY_COOP, WEAP_ROCKETLAUNCHER, None, Some(PickupKind::Weapon)));
    v.push(item("weapon_hyperblaster", "misc/w_pkup.wav", "models/weapons/g_hyperb/tris.md2", "w_hyperblaster", "HyperBlaster", 1, "Cells", FLAG_WEAPON | FLAG_STAY_COOP, WEAP_HYPERBLASTER, None, Some(PickupKind::Weapon)));
    v.push(item("weapon_railgun", "misc/w_pkup.wav", "models/weapons/g_rail/tris.md2", "w_railgun", "Railgun", 1, "Slugs", FLAG_WEAPON | FLAG_STAY_COOP, WEAP_RAILGUN, None, Some(PickupKind::Weapon)));
    v.push(item("weapon_bfg", "misc/w_pkup.wav", "models/weapons/g_bfg/tris.md2", "w_bfg", "BFG10K", 50, "Cells", FLAG_WEAPON | FLAG_STAY_COOP, WEAP_BFG, None, Some(PickupKind::Weapon)));
    v.push(item("ammo_shells", "misc/am_pkup.wav", "models/items/ammo/shells/medium/tris.md2", "a_shells", "Shells", 10, "", FLAG_AMMO, AMMO_SHELLS, None, Some(PickupKind::Ammo)));
    v.push(item("ammo_bullets", "misc/am_pkup.wav", "models/items/ammo/bullets/medium/tris.md2", "a_bullets", "Bullets", 50, "", FLAG_AMMO, AMMO_BULLETS, None, Some(PickupKind::Ammo)));
    v.push(item("ammo_cells", "misc/am_pkup.wav", "models/items/ammo/cells/medium/tris.md2", "a_cells", "Cells", 50, "", FLAG_AMMO, AMMO_CELLS, None, Some(PickupKind::Ammo)));
    v.push(item("ammo_rockets", "misc/am_pkup.wav", "models/items/ammo/rockets/medium/tris.md2", "a_rockets", "Rockets", 5, "", FLAG_AMMO, AMMO_ROCKETS, None, Some(PickupKind::Ammo)));
    v.push(item("ammo_slugs", "misc/am_pkup.wav", "models/items/ammo/slugs/medium/tris.md2", "a_slugs", "Slugs", 10, "", FLAG_AMMO, AMMO_SLUGS, None, Some(PickupKind::Ammo)));
    v.push(item("item_quad", "items/pkup.wav", "models/items/quaddama/tris.md2", "p_quad", "Quad Damage", 60, "", FLAG_POWERUP | FLAG_INSTANT_USE, 0, None, Some(PickupKind::Powerup)));
    v.push(item("item_invulnerability", "items/pkup.wav", "models/items/invulner/tris.md2", "p_invulnerability", "Invulnerability", 300, "", FLAG_POWERUP | FLAG_INSTANT_USE, 0, None, Some(PickupKind::Powerup)));
    v.push(item("item_silencer", "items/pkup.wav", "models/items/silencer/tris.md2", "p_silencer", "Silencer", 60, "", FLAG_POWERUP | FLAG_INSTANT_USE, 0, None, Some(PickupKind::Powerup)));
    v.push(item("item_breather", "items/pkup.wav", "models/items/breather/tris.md2", "p_rebreather", "Rebreather", 60, "", FLAG_STAY_COOP | FLAG_POWERUP | FLAG_INSTANT_USE, 0, None, Some(PickupKind::Powerup)));
    v.push(item("item_enviro", "items/pkup.wav", "models/items/enviro/tris.md2", "p_envirosuit", "Environment Suit", 60, "", FLAG_STAY_COOP | FLAG_POWERUP | FLAG_INSTANT_USE, 0, None, Some(PickupKind::Powerup)));
    v.push(item("item_ancient_head", "items/pkup.wav", "models/items/c_head/tris.md2", "i_fixme", "Ancient Head", 60, "", 0, 0, None, Some(PickupKind::Powerup)));
    v.push(item("item_adrenaline", "items/pkup.wav", "models/items/adrenal/tris.md2", "p_adrenaline", "Adrenaline", 60, "", 0, 0, None, Some(PickupKind::Powerup)));
    v.push(item("item_bandolier", "items/pkup.wav", "models/items/band/tris.md2", "p_bandolier", "Bandolier", 60, "", 0, 0, None, Some(PickupKind::Powerup)));
    v.push(item("item_pack", "items/pkup.wav", "models/items/pack/tris.md2", "i_pack", "Ammo Pack", 180, "", 0, 0, None, Some(PickupKind::Powerup)));
    v.push(item("key_data_cd", "items/pkup.wav", "models/items/keys/data_cd/tris.md2", "k_datacd", "Data CD", 0, "", FLAG_STAY_COOP | FLAG_KEY, 0, None, Some(PickupKind::Key)));
    v.push(item("key_power_cube", "items/pkup.wav", "models/items/keys/power/tris.md2", "k_powercube", "Power Cube", 0, "", FLAG_STAY_COOP | FLAG_KEY, 0, None, Some(PickupKind::Key)));
    v.push(item("key_pyramid", "items/pkup.wav", "models/items/keys/pyramid/tris.md2", "k_pyramid", "Pyramid Key", 0, "", FLAG_STAY_COOP | FLAG_KEY, 0, None, Some(PickupKind::Key)));
    v.push(item("key_data_spinner", "items/pkup.wav", "models/items/keys/spinner/tris.md2", "k_dataspin", "Data Spinner", 0, "", FLAG_STAY_COOP | FLAG_KEY, 0, None, Some(PickupKind::Key)));
    v.push(item("key_pass", "items/pkup.wav", "models/items/keys/pass/tris.md2", "k_security", "Security Pass", 0, "", FLAG_STAY_COOP | FLAG_KEY, 0, None, Some(PickupKind::Key)));
    v.push(item("key_blue_key", "items/pkup.wav", "models/items/keys/key/tris.md2", "k_bluekey", "Blue Key", 0, "", FLAG_STAY_COOP | FLAG_KEY, 0, None, Some(PickupKind::Key)));
    v.push(item("key_red_key", "items/pkup.wav", "models/items/keys/red_key/tris.md2", "k_redkey", "Red Key", 0, "", FLAG_STAY_COOP | FLAG_KEY, 0, None, Some(PickupKind::Key)));
    v.push(item("key_commander_head", "items/pkup.wav", "models/monsters/commandr/head/tris.md2", "k_comhead", "Commander's Head", 0, "", FLAG_STAY_COOP | FLAG_KEY, 0, None, Some(PickupKind::Key)));
    v.push(item("key_airstrike_target", "items/pkup.wav", "models/items/keys/target/tris.md2", "i_airstrike", "Airstrike Marker", 0, "", FLAG_STAY_COOP | FLAG_KEY, 0, None, Some(PickupKind::Key)));
    v.push(item("item_health", "items/pkup.wav", "", "i_health", "Health", 0, "", 0, 0, None, Some(PickupKind::Health)));
    assert(v@ =~= item_table());
    v
}

// ---------------------------------------------------------------------------
// Lookup
// ---------------------------------------------------------------------------

/// `r` is the index of the first item whose classname is `name`, or `None`
/// when no item has that classname.
pub open spec fn classname_search(items: Seq<ItemDef>, name: Seq<char>, r: Option<usize>) -> bool {
    match r {
        Some(i) => i < items.len() && items[i as int].classname@ == name && forall|j: int|
            0 <= j < i ==> items[j].classname@ != name,
        None => forall|j: int| 0 <= j < items.len() ==> items[j].classname@ != name,
    }
}

/// Find an item by classname: the first index whose classname is equal.
pub fn find_item_index(items: &[ItemDef], classname: &str) -> (r: Option<usize>)
    ensures
        classname_search(items@, classname@, r),
{
    let target = str_chars(classname);
    let mut i: usize = 0;
    while i < items.len()
        invariant
            0 <= i <= items@.len(),
            target@ == classname@,
            forall|j: int| 0 <= j < i ==> items@[j].classname@ != classname@,
        decreases items@.len() - i,
    {
        let c = str_chars(items[i].classname);
        if chars_equal(c.as_slice(), target.as_slice()) {
            return Some(i);
        }
        i = i + 1;
    }
    None
}

/// Find an item by pickup name, ignoring ASCII case: the first match.
pub fn find_item_index_by_name(items: &[ItemDef], name: &str) -> (r: Option<usize>)
    ensures
        match r {
            Some(i) => i < items@.len() && eq_ignore_ascii_case(items@[i as int].pickup_name@, name@)
                && forall|j: int| 0 <= j < i ==> !eq_ignore_ascii_case(items@[j].pickup_name@, name@),
            None => forall|j: int| 0 <= j < items@.len() ==> !eq_ignore_ascii_case(items@[j].pickup_name@, name@),
        },
{
    let target = str_chars(name);
    let mut i: usize = 0;
    while i < items.len()
        invariant
            0 <= i <= items@.len(),
            target@ == name@,
            forall|j: int| 0 <= j < i ==> !eq_ignore_ascii_case(items@[j].pickup_name@, name@),
        decreases items@.len() - i,
    {
        let c = str_chars(items[i].pickup_name);
        if chars_eq_ignore_ascii_case(c.as_slice(), target.as_slice()) {
            return Some(i);
        }
        i = i + 1;
    }
    None
}

// ---------------------------------------------------------------------------
// World item registry
// ---------------------------------------------------------------------------

/// The item registry of the game world: the table that item lookups search.
pub struct GameWorld {
    /// Registered items; after `init_items`, index 0 is the null item.
    pub items: Vec<ItemDef>,
    /// The spawn function of each registered entity classname.
    pub spawn_table: SpawnTable,
}

impl GameWorld {
    /// A world with no items registered yet.
    pub fn new() -> (w: Self)
        ensures
            w.items@.len() == 0,
            w.spawn_table.wf(),
            w.spawn_table@ == Map::<Seq<char>, SpawnFn>::empty(),
    {
        GameWorld { items: Vec::new(), spawn_table: SpawnTable::new() }
    }

    /// Register the standard item table, replacing whatever was registered.
    pub fn init_items(&mut self)
        ensures
            final(self).items@ == item_table(),
            final(self).spawn_table == old(self).spawn_table,
    {
        self.items = build_item_list();
    }

    /// Find an item index by classname.
    pub fn find_item(&self, classname: &str) -> (r: Option<usize>)
        ensures
            classname_search(self.items@, classname@, r),
    {
        find_item_index(self.items.as_slice(), classname)
    }
}

/// Inventory slot of each ammo type (0 for a tag that is no ammo type).
pub open spec fn ammo_slot(tag: i32) -> usize {
    if tag == AMMO_SHELLS { 50 }
    else if tag == AMMO_BULLETS { 51 }
    else if tag == AMMO_CELLS { 52 }
    else if tag == AMMO_ROCKETS { 53 }
    else if tag == AMMO_SLUGS { 54 }
    else if tag == AMMO_GRENADES { 55 }
    else { 0 }
}

/// Default maximum of each ammo type (0 for a tag that is no ammo type).
pub open spec fn ammo_max(tag: i32) -> i32 {
    let m = ammo_max_default();
    if tag == AMMO_SHELLS { m.shells }
    else if tag == AMMO_BULLETS { m.bullets }
    else if tag == AMMO_CELLS { m.cells }
    else if tag == AMMO_ROCKETS { m.rockets }
    else if tag == AMMO_SLUGS { m.slugs }
    else if tag == AMMO_GRENADES { m.grenades }
    else { 0 }
}

/// Map an ammo tag to its inventory slot.
pub fn ammo_tag_to_slot(tag: i32) -> (r: usize)
    ensures
        r == ammo_slot(tag),
{
    if tag == AMMO_SHELLS {
        50
    } else if tag == AMMO_BULLETS {
        51
    } else if tag == AMMO_CELLS {
        52
    } else if tag == AMMO_ROCKETS {
        53
    } else if tag == AMMO_SLUGS {
        54
    } else if tag == AMMO_GRENADES {
        55
    } else {
        0
    }
}

/// Maximum count of an ammo type, with default limits.
pub fn ammo_max_for_tag(tag: i32) -> (r: i32)
    ensures
        r == ammo_max(tag),
{
    let m = AMMO_MAX_DEFAULT();
    if tag == AMMO_SHELLS {
        m.shells
    } else if tag == AMMO_BULLETS {
        m.bullets
    } else if tag == AMMO_CELLS {
        m.cells
    } else if tag == AMMO_ROCKETS {
        m.rockets
    } else if tag == AMMO_SLUGS {
        m.slugs
    } else if tag == AMMO_GRENADES {
        m.grenades
    } else {
        0
    }
}

// ---------------------------------------------------------------------------
// Pickups
// ---------------------------------------------------------------------------

/// What a pickup reads of the item entity.
#[derive(Debug, Clone, Copy, PartialEq, Eq)]
pub struct PickupItem {
    /// Index of the item in the item table, if the entity is an item.
    pub item: Option<usize>,
    /// The entity's count (a health pickup's amount).
    pub count: i32,
}

/// What a pickup reads and writes of the player entity.
#[derive(Debug, Clone)]
pub struct PickupPlayer {
    pub health: i32,
    pub max_health: i32,
    /// The client's inventory (`MAX_ITEMS` counts), if the entity is a client.
    pub inventory: Option<Vec<i32>>,
}

/// The plain values of a player entity.
pub struct PlayerView {
    pub health: i32,
    pub max_health: i32,
    pub inventory: Option<Seq<i32>>,
}

/// The view of a possibly missing player entity.
pub open spec fn player_view(p: Option<PickupPlayer>) -> Option<PlayerView> {
    match p {
        Some(pl) => Some(
            PlayerView {
                health: pl.health,
                max_health: pl.max_health,
                inventory: match pl.inventory {
                    Some(v) => Some(v@),
                    None => None,
                },
            },
        ),
        None => None,
    }
}

/// The inventory has its full size wherever there is one.
pub open spec fn inventory_ok(p: Option<PickupPlayer>) -> bool {
    match p {
        Some(pl) => match pl.inventory {
            Some(v) => v@.len() == MAX_ITEMS,
            None => true,
        },
        None => true,
    }
}

/// The inventory count at `slot`, for a player that is a client.
pub open spec fn inventory_at(p: Option<PlayerView>, slot: int) -> Option<i32> {
    match p {
        Some(v) => match v.inventory {
            Some(inv) => Some(inv[slot]),
            None => None,
        },
        None => None,
    }
}

/// The player with inventory `slot` set to `value` (unchanged without a
/// client).
pub open spec fn with_inventory(p: Option<PlayerView>, slot: int, value: int) -> Option<PlayerView> {
    match p {
        Some(v) => match v.inventory {
            Some(inv) => Some(PlayerView { inventory: Some(inv.update(slot, value as i32)), ..v }),
            None => p,
        },
        None => p,
    }
}

/// The item index carried by the item entity.
pub open spec fn item_index(item: Option<PickupItem>) -> Option<usize> {
    match item {
        Some(e) => e.item,
        None => None,
    }
}

pub open spec fn max_i(a: int, b: int) -> int {
    if a >= b { a } else { b }
}

pub open spec fn min_i(a: int, b: int) -> int {
    if a <= b { a } else { b }
}

/// Armor pickup: a shard adds 2 to the armor count; an armor raises it to
/// the armor's base count, capped at its maximum, and is refused when the
/// count is already at or above the maximum and would not rise.
pub open spec fn armor_pickup(items: Seq<ItemDef>, item: Option<PickupItem>, p: Option<PlayerView>) -> (bool, Option<PlayerView>) {
    match item_index(item) {
        None => (false, p),
        Some(idx) => {
            let info = if idx < items.len() { items[idx as int].armor_info } else { None };
            match info {
                None => match inventory_at(p, 1) {
                    Some(cur) => (true, with_inventory(p, 1, cur + 2)),
                    None => (false, p),
                },
                Some(ai) => {
                    let current: int = match inventory_at(p, 1) {
                        Some(c) => c as int,
                        None => 0,
                    };
                    let new_count = max_i(ai.base_count as int, current);
                    if new_count <= current && current >= ai.max_count {
                        (false, p)
                    } else {
                        (true, with_inventory(p, 1, min_i(new_count, ai.max_count as int)))
                    }
                },
            }
        },
    }
}

/// The shard case of an armor pickup does not overflow.
pub open spec fn armor_pickup_safe(items: Seq<ItemDef>, item: Option<PickupItem>, p: Option<PlayerView>) -> bool {
    match item_index(item) {
        Some(idx) => {
            let info = if idx < items.len() { items[idx as int].armor_info } else { None };
            info is None ==> match inventory_at(p, 1) {
                Some(cur) => cur + 2 <= i32::MAX,
                None => true,
            }
        },
        None => true,
    }
}

fn set_inventory(player: &mut Option<PickupPlayer>, slot: usize, value: i32)
    requires
        inventory_ok(*old(player)),
        slot < MAX_ITEMS,
    ensures
        inventory_ok(*final(player)),
        player_view(*final(player)) == with_inventory(player_view(*old(player)), slot as int, value as int),
{
    match player {
        Some(pl) => match &mut pl.inventory {
            Some(inv) => {
                inv.set(slot, value);
            },
            None => {},
        },
        None => {},
    }
    proof {
        let ghost a = player_view(*player);
        let ghost b = with_inventory(player_view(*old(player)), slot as int, value as int);
        if a is Some && a->0.inventory is Some {
            assert(a->0.inventory->0 =~= b->0.inventory->0);
        }
    }
}

fn get_inventory(player: &Option<PickupPlayer>, slot: usize) -> (r: Option<i32>)
    requires
        inventory_ok(*player),
        slot < MAX_ITEMS,
    ensures
        r == inventory_at(player_view(*player), slot as int),
{
    match player {
        Some(pl) => match &pl.inventory {
            Some(inv) => Some(inv[slot]),
            None => None,
        },
        None => None,
    }
}

/// Pickup handler for armor items.
pub fn pickup_armor(items: &[ItemDef], item_ent: Option<PickupItem>, player: &mut Option<PickupPlayer>) -> (r: bool)
    requires
        inventory_ok(*old(player)),
        armor_pickup_safe(items@, item_ent, player_view(*old(player))),
    ensures
        inventory_ok(*final(player)),
        (r, player_view(*final(player))) == armor_pickup(items@, item_ent, player_view(*old(player))),
{
    let item_idx = match item_ent {
        Some(e) => e.item,
        None => None,
    };
    let item_idx = match item_idx {
        Some(i) => i,
        None => return false,
    };
    let info = if item_idx < items.len() { items[item_idx].armor_info } else { None };
    let armor_info = match info {
        Some(ai) => ai,
        None => {
            match get_inventory(player, ARMOR_SLOT) {
                Some(cur) => {
                    set_inventory(player, ARMOR_SLOT, cur + 2);
                    return true;
                },
                None => return false,
            }
        },
    };
    let current = match get_inventory(player, ARMOR_SLOT) {
        Some(c) => c,
        None => 0,
    };
    let new_count = if armor_info.base_count >= current { armor_info.base_count } else { current };
    if new_count <= current && current >= armor_info.max_count {
        return false;
    }
    let capped = if new_count <= armor_info.max_count { new_count } else { armor_info.max_count };
    set_inventory(player, ARMOR_SLOT, capped);
    true
}

/// Ammo pickup: adds the item's quantity to its ammo slot, capped at the
/// default maximum; refused for an unknown ammo type or a full slot.
pub open spec fn ammo_pickup(items: Seq<ItemDef>, item: Option<PickupItem>, p: Option<PlayerView>) -> (bool, Option<PlayerView>) {
    match item_index(item) {
        None => (false, p),
        Some(idx) => if idx >= items.len() {
            (false, p)
        } else {
            let quantity = items[idx as int].quantity;
            let tag = items[idx as int].tag;
            let slot = ammo_slot(tag);
            if slot == 0 {
                (false, p)
            } else {
                let max = ammo_max(tag);
                let current: int = match inventory_at(p, slot as int) {
                    Some(c) => c as int,
                    None => 0,
                };
                if current >= max {
                    (false, p)
                } else {
                    (true, with_inventory(p, slot as int, min_i(current + quantity, max as int)))
                }
            }
        },
    }
}

/// An ammo pickup's sum does not overflow.
pub open spec fn ammo_pickup_safe(items: Seq<ItemDef>, item: Option<PickupItem>, p: Option<PlayerView>) -> bool {
    match item_index(item) {
        Some(idx) => idx < items.len() && ammo_slot(items[idx as int].tag) != 0 ==> match inventory_at(
            p,
            ammo_slot(items[idx as int].tag) as int,
        ) {
            Some(c) => i32::MIN <= c + items[idx as int].quantity <= i32::MAX,
            None => true,
        },
        None => true,
    }
}

/// Pickup handler for ammo items.
pub fn pickup_ammo(items: &[ItemDef], item_ent: Option<PickupItem>, player: &mut Option<PickupPlayer>) -> (r: bool)
    requires
        inventory_ok(*old(player)),
        ammo_pickup_safe(items@, item_ent, player_view(*old(player))),
    ensures
        inventory_ok(*final(player)),
        (r, player_view(*final(player))) == ammo_pickup(items@, item_ent, player_view(*old(player))),
{
    let item_idx = match item_ent {
        Some(e) => e.item,
        None => None,
    };
    let item_idx = match item_idx {
        Some(i) => i,
        None => return false,
    };
    if item_idx >= items.len() {
        return false;
    }
    let quantity = items[item_idx].quantity;
    let tag = items[item_idx].tag;
    let inv_slot = ammo_tag_to_slot(tag);
    if inv_slot == 0 {
        return false;
    }
    let max = ammo_max_for_tag(tag);
    let current = match get_inventory(player, inv_slot) {
        Some(c) => c,
        None => 0,
    };
    if current >= max {
        return false;
    }
    match get_inventory(player, inv_slot) {
        Some(c) => {
            let sum = c + quantity;
            let v = if sum <= max { sum } else { max };
            set_inventory(player, inv_slot, v);
        },
        None => {},
    }
    true
}

/// Weapon pickup: one more of the weapon, and for a weapon that uses ammo,
/// the ammo item's quantity added to its slot, capped at the default
/// maximum. Always taken when the entity is an item.
pub open spec fn weapon_pickup(items: Seq<ItemDef>, item: Option<PickupItem>, p: Option<PlayerView>) -> (bool, Option<PlayerView>) {
    match item_index(item) {
        None => (false, p),
        Some(idx) => {
            let p1 = weapon_counted(p, idx as int);
            let p2 = if idx < items.len() && items[idx as int].ammo@.len() > 0 {
                match first_named(items, items[idx as int].ammo@) {
                    Some(a) => {
                        let slot = ammo_slot(items[a].tag);
                        if slot > 0 {
                            match inventory_at(p1, slot as int) {
                                Some(c) => with_inventory(
                                    p1,
                                    slot as int,
                                    min_i(c + items[a].quantity, ammo_max(items[a].tag) as int),
                                ),
                                None => p1,
                            }
                        } else {
                            p1
                        }
                    },
                    None => p1,
                }
            } else {
                p1
            };
            (true, p2)
        },
    }
}

/// Index of the first item whose pickup name matches `name` ignoring
/// ASCII case.
pub open spec fn first_named(items: Seq<ItemDef>, name: Seq<char>) -> Option<int> {
    if exists|i: int| 0 <= i < items.len() && eq_ignore_ascii_case(items[i].pickup_name@, name) {
        Some(
            choose|i: int|
                0 <= i < items.len() && eq_ignore_ascii_case(items[i].pickup_name@, name) && forall|j: int|
                    0 <= j < i ==> !eq_ignore_ascii_case(items[j].pickup_name@, name),
        )
    } else {
        None
    }
}

/// The player after a weapon pickup counted weapon `idx`.
pub open spec fn weapon_counted(p: Option<PlayerView>, idx: int) -> Option<PlayerView> {
    match inventory_at(p, idx) {
        Some(c) => with_inventory(p, idx, c + 1),
        None => p,
    }
}

/// A weapon pickup indexes the inventory in range and its sums do not
/// overflow.
pub open spec fn weapon_pickup_safe(items: Seq<ItemDef>, item: Option<PickupItem>, p: Option<PlayerView>) -> bool {
    match item_index(item) {
        Some(idx) => {
            &&& inventory_at(p, 0) is Some ==> idx < MAX_ITEMS
            &&& match inventory_at(p, idx as int) {
                Some(c) => c + 1 <= i32::MAX,
                None => true,
            }
            &&& (idx < items.len() && items[idx as int].ammo@.len() > 0 && first_named(
                items,
                items[idx as int].ammo@,
            ) is Some) ==> {
                let a = first_named(items, items[idx as int].ammo@)->0;
                let slot = ammo_slot(items[a].tag);
                slot > 0 ==> match inventory_at(weapon_counted(p, idx as int), slot as int) {
                    Some(c) => i32::MIN <= c + items[a].quantity <= i32::MAX,
                    None => true,
                }
            }
        },
        None => true,
    }
}

proof fn lemma_first_named(items: Seq<ItemDef>, name: Seq<char>, i: int)
    requires
        0 <= i < items.len(),
        eq_ignore_ascii_case(items[i].pickup_name@, name),
        forall|j: int| 0 <= j < i ==> !eq_ignore_ascii_case(items[j].pickup_name@, name),
    ensures
        first_named(items, name) == Some(i),
{
    let c = choose|k: int|
        0 <= k < items.len() && eq_ignore_ascii_case(items[k].pickup_name@, name) && forall|j: int|
            0 <= j < k ==> !eq_ignore_ascii_case(items[j].pickup_name@, name);
    assert(0 <= c < items.len() && eq_ignore_ascii_case(items[c].pickup_name@, name) && forall|j: int|
            0 <= j < c ==> !eq_ignore_ascii_case(items[j].pickup_name@, name));
    if c < i {
        assert(!eq_ignore_ascii_case(items[c].pickup_name@, name));
    } else if c > i {
        assert(!eq_ignore_ascii_case(items[i].pickup_name@, name));
    }
}

/// Pickup handler for weapon items.
pub fn pickup_weapon(items: &[ItemDef], item_ent: Option<PickupItem>, player: &mut Option<PickupPlayer>) -> (r: bool)
    requires
        inventory_ok(*old(player)),
        weapon_pickup_safe(items@, item_ent, player_view(*old(player))),
    ensures
        inventory_ok(*final(player)),
        (r, player_view(*final(player))) == weapon_pickup(items@, item_ent, player_view(*old(player))),
{
    let item_idx = match item_ent {
        Some(e) => e.item,
        None => None,
    };
    let item_idx = match item_idx {
        Some(i) => i,
        None => return false,
    };
    let ghost p0 = player_view(*player);
    if get_inventory(player, 0).is_some() {
        match get_inventory(player, item_idx) {
            Some(c) => set_inventory(player, item_idx, c + 1),
            None => {},
        }
    }
    let ghost p1 = player_view(*player);
    assert(p1 == weapon_counted(p0, item_idx as int));
    if item_idx < items.len() {
        let ammo_name = items[item_idx].ammo;
        let an = str_chars(ammo_name);
        if an.len() > 0 {
            match find_item_index_by_name(items, ammo_name) {
                Some(ammo_idx) => {
                    proof {
                        lemma_first_named(items@, ammo_name@, ammo_idx as int);
                    }
                    let ammo_item = items[ammo_idx];
                    let inv_slot = ammo_tag_to_slot(ammo_item.tag);
                    if inv_slot > 0 {
                        let max = ammo_max_for_tag(ammo_item.tag);
                        match get_inventory(player, inv_slot) {
                            Some(current) => {
                                let sum = current + ammo_item.quantity;
                                let v = if sum <= max { sum } else { max };
                                set_inventory(player, inv_slot, v);
                            },
                            None => {},
                        }
                    }
                },
                None => {},
            }
        }
    }
    true
}

/// Health pickup: adds the item entity's count (10 when there is no item
/// entity) to the player's health, capped at the maximum; refused at full
/// health. A missing player counts as health 0 of 100.
pub open spec fn health_pickup(item: Option<PickupItem>, p: Option<PlayerView>) -> (bool, Option<PlayerView>) {
    let amount = pickup_amount(item);
    let health: int = match p {
        Some(v) => v.health as int,
        None => 0,
    };
    let max_health: int = match p {
        Some(v) => v.max_health as int,
        None => 100,
    };
    if health >= max_health {
        (false, p)
    } else {
        (true, match p {
            Some(v) => Some(PlayerView { health: min_i(health + amount, max_health) as i32, ..v }),
            None => p,
        })
    }
}

/// The health an item entity gives: its count, or 10 without an entity.
pub open spec fn pickup_amount(item: Option<PickupItem>) -> int {
    match item {
        Some(e) => e.count as int,
        None => 10,
    }
}

/// Pickup handler for health items.
pub fn pickup_health(item_ent: Option<PickupItem>, player: &mut Option<PickupPlayer>) -> (r: bool)
    requires
        inventory_ok(*old(player)),
        match *old(player) {
            Some(pl) => i32::MIN <= pl.health + pickup_amount(item_ent) <= i32::MAX,
            None => true,
        },
    ensures
        inventory_ok(*final(player)),
        (r, player_view(*final(player))) == health_pickup(item_ent, player_view(*old(player))),
{
    let amount = match item_ent {
        Some(e) => e.count,
        None => 10,
    };
    let (health, max_health) = match player {
        Some(pl) => (pl.health, pl.max_health),
        None => (0, 100),
    };
    if health >= max_health {
        return false;
    }
    match player {
        Some(pl) => {
            let sum = health + amount;
            pl.health = if sum <= max_health { sum } else { max_health };
        },
        None => {},
    }
    true
}

/// Powerup and key pickup: one more of the item in the inventory; always
/// taken when the entity is an item.
pub open spec fn counted_pickup(item: Option<PickupItem>, p: Option<PlayerView>) -> (bool, Option<PlayerView>) {
    match item_index(item) {
        None => (false, p),
        Some(idx) => (true, match inventory_at(p, idx as int) {
            Some(c) => with_inventory(p, idx as int, c + 1),
            None => p,
        }),
    }
}

/// A powerup or key pickup indexes the inventory in range without
/// overflow.
pub open spec fn counted_pickup_safe(item: Option<PickupItem>, p: Option<PlayerView>) -> bool {
    match item_index(item) {
        Some(idx) => {
            &&& inventory_at(p, 0) is Some ==> idx < MAX_ITEMS
            &&& match inventory_at(p, idx as int) {
                Some(c) => c + 1 <= i32::MAX,
                None => true,
            }
        },
        None => true,
    }
}

fn add_one(item_ent: Option<PickupItem>, player: &mut Option<PickupPlayer>) -> (r: bool)
    requires
        inventory_ok(*old(player)),
        counted_pickup_safe(item_ent, player_view(*old(player))),
    ensures
        inventory_ok(*final(player)),
        (r, player_view(*final(player))) == counted_pickup(item_ent, player_view(*old(player))),
{
    let item_idx = match item_ent {
        Some(e) => e.item,
        None => None,
    };
    let item_idx = match item_idx {
        Some(i) => i,
        None => return false,
    };
    if get_inventory(player, 0).is_some() {
        match get_inventory(player, item_idx) {
            Some(c) => set_inventory(player, item_idx, c + 1),
            None => {},
        }
    }
    true
}

/// Pickup handler for powerup items.
pub fn pickup_powerup(item_ent: Option<PickupItem>, player: &mut Option<PickupPlayer>) -> (r: bool)
    requires
        inventory_ok(*old(player)),
        counted_pickup_safe(item_ent, player_view(*old(player))),
    ensures
        inventory_ok(*final(player)),
        (r, player_view(*final(player))) == counted_pickup(item_ent, player_view(*old(player))),
{
    add_one(item_ent, player)
}

/// Pickup handler for key items.
pub fn pickup_key(item_ent: Option<PickupItem>, player: &mut Option<PickupPlayer>) -> (r: bool)
    requires
        inventory_ok(*old(player)),
        counted_pickup_safe(item_ent, player_view(*old(player))),
    ensures
        inventory_ok(*final(player)),
        (r, player_view(*final(player))) == counted_pickup(item_ent, player_view(*old(player))),
{
    add_one(item_ent, player)
}

/// A client with health, maximum health and inventory `inv`.
pub open spec fn client_view(health: i32, max_health: i32, inv: Seq<i32>) -> Option<PlayerView> {
    Some(PlayerView { health, max_health, inventory: Some(inv) })
}

/// An ammo pickup by a client is refused exactly when its slot is full;
/// when taken it adds the item's quantity up to the maximum and no
/// further, and changes nothing but that slot.
pub proof fn law_ammo_pickup(
    items: Seq<ItemDef>,
    item: PickupItem,
    health: i32,
    max_health: i32,
    inv: Seq<i32>,
    idx: usize,
)
    requires
        item.item == Some(idx),
        idx < items.len(),
        ammo_slot(items[idx as int].tag) != 0,
        inv.len() == MAX_ITEMS,
        ammo_pickup_safe(items, Some(item), client_view(health, max_health, inv)),
    ensures
        ({
            let slot = ammo_slot(items[idx as int].tag) as int;
            let max = ammo_max(items[idx as int].tag) as int;
            let q = items[idx as int].quantity as int;
            let (r, after) = ammo_pickup(items, Some(item), client_view(health, max_health, inv));
            &&& r == (inv[slot] < max)
            &&& !r ==> after == client_view(health, max_health, inv)
            &&& r ==> after is Some && after->0.health == health && after->0.max_health == max_health
                && after->0.inventory is Some
            &&& r ==> ({
                let ninv = after->0.inventory->0;
                &&& ninv.len() == inv.len()
                &&& forall|k: int| 0 <= k < inv.len() && k != slot ==> ninv[k] == inv[k]
                &&& ninv[slot] <= max
                &&& inv[slot] + q <= max ==> ninv[slot] == inv[slot] + q
                &&& inv[slot] + q > max ==> ninv[slot] == max
            })
        }),
{
}

/// An armor pickup by a client: a shard adds 2 to the armor count; an
/// armor is refused exactly when the count is at or above its maximum and
/// its base count would not raise it; when taken the count becomes the
/// larger of the base count and the current count, capped at the maximum.
/// Nothing but the armor count changes.
pub proof fn law_armor_pickup(
    items: Seq<ItemDef>,
    item: PickupItem,
    health: i32,
    max_health: i32,
    inv: Seq<i32>,
    idx: usize,
)
    requires
        item.item == Some(idx),
        inv.len() == MAX_ITEMS,
    ensures
        ({
            let info = if idx < items.len() { items[idx as int].armor_info } else { None };
            let cur = inv[1] as int;
            let (r, after) = armor_pickup(items, Some(item), client_view(health, max_health, inv));
            &&& info is None ==> r && after == client_view(health, max_health, inv.update(1, (cur + 2) as i32))
            &&& info matches Some(ai) ==> {
                &&& r == !(cur >= ai.max_count && ai.base_count <= cur)
                &&& !r ==> after == client_view(health, max_health, inv)
                &&& r ==> after == client_view(
                    health,
                    max_health,
                    inv.update(
                        1,
                        (if ai.base_count > cur {
                            if ai.base_count <= ai.max_count { ai.base_count as int } else { ai.max_count as int }
                        } else {
                            if cur <= ai.max_count { cur } else { ai.max_count as int }
                        }) as i32,
                    ),
                )
            }
        }),
{
}

/// A health pickup is refused exactly at full health; when taken it adds
/// the item's amount up to the maximum health and no further, and changes
/// nothing else.
pub proof fn law_health_pickup(item: Option<PickupItem>, health: i32, max_health: i32, inv: Option<Seq<i32>>)
    requires
        i32::MIN <= health + pickup_amount(item),
    ensures
        ({
            let p = Some(PlayerView { health, max_health, inventory: inv });
            let amount = pickup_amount(item);
            let (r, after) = health_pickup(item, p);
            &&& r == (health < max_health)
            &&& !r ==> after == p
            &&& r ==> after is Some && after->0.max_health == max_health && after->0.inventory == inv
                && after->0.health <= max_health
            &&& r && health + amount <= max_health ==> after->0.health == health + amount
            &&& r && health + amount > max_health ==> after->0.health == max_health
        }),
{
}

/// A powerup or key pickup by a client is always taken and adds one of
/// the item, changing nothing else.
pub proof fn law_counted_pickup(item: PickupItem, health: i32, max_health: i32, inv: Seq<i32>, idx: usize)
    requires
        item.item == Some(idx),
        idx < inv.len(),
    ensures
        counted_pickup(Some(item), client_view(health, max_health, inv)) == (
            true,
            client_view(health, max_health, inv.update(idx as int, (inv[idx as int] + 1) as i32)),
        ),
{
}

} // verus!
