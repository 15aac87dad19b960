//! Game constants: flag sets, state enums and armor limits.

use vstd::prelude::*;

verus! {

/// Per-entity flags.
#[derive(Debug, Clone, Copy, PartialEq, Eq, Default)]
pub struct EntityFlags {
    pub bits: u32,
}

impl EntityFlags {
    #[allow(non_snake_case)]
    pub fn FLY() -> (r: EntityFlags)
        ensures
            r.bits == 0x1,
    {
        EntityFlags { bits: 0x1 }
    }

    #[allow(non_snake_case)]
    pub fn SWIM() -> (r: EntityFlags)
        ensures
            r.bits == 0x2,
    {
        EntityFlags { bits: 0x2 }
    }

    #[allow(non_snake_case)]
    pub fn IMMUNE_LASER() -> (r: EntityFlags)
        ensures
            r.bits == 0x4,
    {
        EntityFlags { bits: 0x4 }
    }

    #[allow(non_snake_case)]
    pub fn INWATER() -> (r: EntityFlags)
        ensures
            r.bits == 0x8,
    {
        EntityFlags { bits: 0x8 }
    }

    #[allow(non_snake_case)]
    pub fn GODMODE() -> (r: EntityFlags)
        ensures
            r.bits == 0x10,
    {
        EntityFlags { bits: 0x10 }
    }

    #[allow(non_snake_case)]
    pub fn NOTARGET() -> (r: EntityFlags)
        ensures
            r.bits == 0x20,
    {
        EntityFlags { bits: 0x20 }
    }

    #[allow(non_snake_case)]
    pub fn IMMUNE_SLIME() -> (r: EntityFlags)
        ensures
            r.bits == 0x40,
    {
        EntityFlags { bits: 0x40 }
    }

    #[allow(non_snake_case)]
    pub fn IMMUNE_LAVA() -> (r: EntityFlags)
        ensures
            r.bits == 0x80,
    {
        EntityFlags { bits: 0x80 }
    }

    #[allow(non_snake_case)]
    pub fn PARTIALGROUND() -> (r: EntityFlags)
        ensures
            r.bits == 0x100,
    {
        EntityFlags { bits: 0x100 }
    }

    #[allow(non_snake_case)]
    pub fn WATERJUMP() -> (r: EntityFlags)
        ensures
            r.bits == 0x200,
    {
        EntityFlags { bits: 0x200 }
    }

    #[allow(non_snake_case)]
    pub fn TEAMSLAVE() -> (r: EntityFlags)
        ensures
            r.bits == 0x400,
    {
        EntityFlags { bits: 0x400 }
    }

    #[allow(non_snake_case)]
    pub fn NO_KNOCKBACK() -> (r: EntityFlags)
        ensures
            r.bits == 0x800,
    {
        EntityFlags { bits: 0x800 }
    }

    #[allow(non_snake_case)]
    pub fn POWER_ARMOR() -> (r: EntityFlags)
        ensures
            r.bits == 0x1000,
    {
        EntityFlags { bits: 0x1000 }
    }

    #[allow(non_snake_case)]
    pub fn COOP_TAKEN() -> (r: EntityFlags)
        ensures
            r.bits == 0x2000,
    {
        EntityFlags { bits: 0x2000 }
    }

    #[allow(non_snake_case)]
    pub fn RESPAWN() -> (r: EntityFlags)
        ensures
            r.bits == 0x80000000,
    {
        EntityFlags { bits: 0x80000000 }
    }

    /// The empty set.
    pub fn empty() -> (r: Self)
        ensures
            r.bits == 0,
    {
        EntityFlags { bits: 0 }
    }

    /// The raw bits.
    pub fn bits(&self) -> (r: u32)
        ensures
            r == self.bits,
    {
        self.bits
    }

    /// Every flag of `other` is set in `self`.
    pub fn contains(&self, other: Self) -> (r: bool)
        ensures
            r == (self.bits & other.bits == other.bits),
    {
        self.bits & other.bits == other.bits
    }

    /// The union of two sets.
    pub fn union(self, other: Self) -> (r: Self)
        ensures
            r.bits == self.bits | other.bits,
    {
        EntityFlags { bits: self.bits | other.bits }
    }
}

impl core::ops::BitOr for EntityFlags {
    type Output = EntityFlags;

    fn bitor(self, other: Self) -> (r: Self)
        ensures
            r.bits == self.bits | other.bits,
    {
        self.union(other)
    }
}

impl vstd::std_specs::ops::BitOrSpecImpl for EntityFlags {
    open spec fn obeys_bitor_spec() -> bool {
        true
    }

    open spec fn bitor_req(self, rhs: Self) -> bool {
        true
    }

    open spec fn bitor_spec(self, rhs: Self) -> Self {
        EntityFlags { bits: self.bits | rhs.bits }
    }
}

/// Server-side visibility flags.
#[derive(Debug, Clone, Copy, PartialEq, Eq, Default)]
pub struct SvFlags {
    pub bits: u32,
}

impl SvFlags {
    #[allow(non_snake_case)]
    pub fn NOCLIENT() -> (r: SvFlags)
        ensures
            r.bits == 0x1,
    {
        SvFlags { bits: 0x1 }
    }

    #[allow(non_snake_case)]
    pub fn DEADMONSTER() -> (r: SvFlags)
        ensures
            r.bits == 0x2,
    {
        SvFlags { bits: 0x2 }
    }

    #[allow(non_snake_case)]
    pub fn MONSTER() -> (r: SvFlags)
        ensures
            r.bits == 0x4,
    {
        SvFlags { bits: 0x4 }
    }

    /// The empty set.
    pub fn empty() -> (r: Self)
        ensures
            r.bits == 0,
    {
        SvFlags { bits: 0 }
    }

    /// The raw bits.
    pub fn bits(&self) -> (r: u32)
        ensures
            r == self.bits,
    {
        self.bits
    }

    /// Every flag of `other` is set in `self`.
    pub fn contains(&self, other: Self) -> (r: bool)
        ensures
            r == (self.bits & other.bits == other.bits),
    {
        self.bits & other.bits == other.bits
    }

    /// The union of two sets.
    pub fn union(self, other: Self) -> (r: Self)
        ensures
            r.bits == self.bits | other.bits,
    {
        SvFlags { bits: self.bits | other.bits }
    }
}

impl core::ops::BitOr for SvFlags {
    type Output = SvFlags;

    fn bitor(self, other: Self) -> (r: Self)
        ensures
            r.bits == self.bits | other.bits,
    {
        self.union(other)
    }
}

impl vstd::std_specs::ops::BitOrSpecImpl for SvFlags {
    open spec fn obeys_bitor_spec() -> bool {
        true
    }

    open spec fn bitor_req(self, rhs: Self) -> bool {
        true
    }

    open spec fn bitor_spec(self, rhs: Self) -> Self {
        SvFlags { bits: self.bits | rhs.bits }
    }
}

/// Modifiers for how damage is applied.
#[derive(Debug, Clone, Copy, PartialEq, Eq, Default)]
pub struct DamageFlags {
    pub bits: u32,
}

impl DamageFlags {
    #[allow(non_snake_case)]
    pub fn RADIUS() -> (r: DamageFlags)
        ensures
            r.bits == 0x1,
    {
        DamageFlags { bits: 0x1 }
    }

    #[allow(non_snake_case)]
    pub fn NO_ARMOR() -> (r: DamageFlags)
        ensures
            r.bits == 0x2,
    {
        DamageFlags { bits: 0x2 }
    }

    #[allow(non_snake_case)]
    pub fn ENERGY() -> (r: DamageFlags)
        ensures
            r.bits == 0x4,
    {
        DamageFlags { bits: 0x4 }
    }

    #[allow(non_snake_case)]
    pub fn NO_KNOCKBACK() -> (r: DamageFlags)
        ensures
            r.bits == 0x8,
    {
        DamageFlags { bits: 0x8 }
    }

    #[allow(non_snake_case)]
    pub fn BULLET() -> (r: DamageFlags)
        ensures
            r.bits == 0x10,
    {
        DamageFlags { bits: 0x10 }
    }

    #[allow(non_snake_case)]
    pub fn NO_PROTECTION() -> (r: DamageFlags)
        ensures
            r.bits == 0x20,
    {
        DamageFlags { bits: 0x20 }
    }

    /// The empty set.
    pub fn empty() -> (r: Self)
        ensures
            r.bits == 0,
    {
        DamageFlags { bits: 0 }
    }

    /// The raw bits.
    pub fn bits(&self) -> (r: u32)
        ensures
            r == self.bits,
    {
        self.bits
    }

    /// Every flag of `other` is set in `self`.
    pub fn contains(&self, other: Self) -> (r: bool)
        ensures
            r == (self.bits & other.bits == other.bits),
    {
        self.bits & other.bits == other.bits
    }

    /// The union of two sets.
    pub fn union(self, other: Self) -> (r: Self)
        ensures
            r.bits == self.bits | other.bits,
    {
        DamageFlags { bits: self.bits | other.bits }
    }
}

impl core::ops::BitOr for DamageFlags {
    type Output = DamageFlags;

    fn bitor(self, other: Self) -> (r: Self)
        ensures
            r.bits == self.bits | other.bits,
    {
        self.union(other)
    }
}

impl vstd::std_specs::ops::BitOrSpecImpl for DamageFlags {
    open spec fn obeys_bitor_spec() -> bool {
        true
    }

    open spec fn bitor_req(self, rhs: Self) -> bool {
        true
    }

    open spec fn bitor_spec(self, rhs: Self) -> Self {
        DamageFlags { bits: self.bits | rhs.bits }
    }
}

/// Classification flags for items.
#[derive(Debug, Clone, Copy, PartialEq, Eq, Default)]
pub struct ItemFlags {
    pub bits: u32,
}

impl ItemFlags {
    #[allow(non_snake_case)]
    pub fn WEAPON() -> (r: ItemFlags)
        ensures
            r.bits == 0x1,
    {
        ItemFlags { bits: 0x1 }
    }

    #[allow(non_snake_case)]
    pub fn AMMO() -> (r: ItemFlags)
        ensures
            r.bits == 0x2,
    {
        ItemFlags { bits: 0x2 }
    }

    #[allow(non_snake_case)]
    pub fn ARMOR() -> (r: ItemFlags)
        ensures
            r.bits == 0x4,
    {
        ItemFlags { bits: 0x4 }
    }

    #[allow(non_snake_case)]
    pub fn STAY_COOP() -> (r: ItemFlags)
        ensures
            r.bits == 0x8,
    {
        ItemFlags { bits: 0x8 }
    }

    #[allow(non_snake_case)]
    pub fn KEY() -> (r: ItemFlags)
        ensures
            r.bits == 0x10,
    {
        ItemFlags { bits: 0x10 }
    }

    #[allow(non_snake_case)]
    pub fn POWERUP() -> (r: ItemFlags)
        ensures
            r.bits == 0x20,
    {
        ItemFlags { bits: 0x20 }
    }

    #[allow(non_snake_case)]
    pub fn INSTANT_USE() -> (r: ItemFlags)
        ensures
            r.bits == 0x40,
    {
        ItemFlags { bits: 0x40 }
    }

    /// The empty set.
    pub fn empty() -> (r: Self)
        ensures
            r.bits == 0,
    {
        ItemFlags { bits: 0 }
    }

    /// The raw bits.
    pub fn bits(&self) -> (r: u32)
        ensures
            r == self.bits,
    {
        self.bits
    }

    /// Every flag of `other` is set in `self`.
    pub fn contains(&self, other: Self) -> (r: bool)
        ensures
            r == (self.bits & other.bits == other.bits),
    {
        self.bits & other.bits == other.bits
    }

    /// The union of two sets.
    pub fn union(self, other: Self) -> (r: Self)
        ensures
            r.bits == self.bits | other.bits,
    {
        ItemFlags { bits: self.bits | other.bits }
    }
}

impl core::ops::BitOr for ItemFlags {
    type Output = ItemFlags;

    fn bitor(self, other: Self) -> (r: Self)
        ensures
            r.bits == self.bits | other.bits,
    {
        self.union(other)
    }
}

impl vstd::std_specs::ops::BitOrSpecImpl for ItemFlags {
    open spec fn obeys_bitor_spec() -> bool {
        true
    }

    open spec fn bitor_req(self, rhs: Self) -> bool {
        true
    }

    open spec fn bitor_spec(self, rhs: Self) -> Self {
        ItemFlags { bits: self.bits | rhs.bits }
    }
}

/// Monster AI behaviour flags.
#[derive(Debug, Clone, Copy, PartialEq, Eq, Default)]
pub struct AiFlags {
    pub bits: u32,
}

impl AiFlags {
    #[allow(non_snake_case)]
    pub fn STAND_GROUND() -> (r: AiFlags)
        ensures
            r.bits == 0x1,
    {
        AiFlags { bits: 0x1 }
    }

    #[allow(non_snake_case)]
    pub fn TEMP_STAND_GROUND() -> (r: AiFlags)
        ensures
            r.bits == 0x2,
    {
        AiFlags { bits: 0x2 }
    }

    #[allow(non_snake_case)]
    pub fn SOUND_TARGET() -> (r: AiFlags)
        ensures
            r.bits == 0x4,
    {
        AiFlags { bits: 0x4 }
    }

    #[allow(non_snake_case)]
    pub fn LOST_SIGHT() -> (r: AiFlags)
        ensures
            r.bits == 0x8,
    {
        AiFlags { bits: 0x8 }
    }

    #[allow(non_snake_case)]
    pub fn PURSUIT_LAST_SEEN() -> (r: AiFlags)
        ensures
            r.bits == 0x10,
    {
        AiFlags { bits: 0x10 }
    }

    #[allow(non_snake_case)]
    pub fn PURSUE_NEXT() -> (r: AiFlags)
        ensures
            r.bits == 0x20,
    {
        AiFlags { bits: 0x20 }
    }

    #[allow(non_snake_case)]
    pub fn PURSUE_TEMP() -> (r: AiFlags)
        ensures
            r.bits == 0x40,
    {
        AiFlags { bits: 0x40 }
    }

    #[allow(non_snake_case)]
    pub fn HOLD_FRAME() -> (r: AiFlags)
        ensures
            r.bits == 0x80,
    {
        AiFlags { bits: 0x80 }
    }

    #[allow(non_snake_case)]
    pub fn GOOD_GUY() -> (r: AiFlags)
        ensures
            r.bits == 0x100,
    {
        AiFlags { bits: 0x100 }
    }

    #[allow(non_snake_case)]
    pub fn BRUTAL() -> (r: AiFlags)
        ensures
            r.bits == 0x200,
    {
        AiFlags { bits: 0x200 }
    }

    #[allow(non_snake_case)]
    pub fn NOSTEP() -> (r: AiFlags)
        ensures
            r.bits == 0x400,
    {
        AiFlags { bits: 0x400 }
    }

    #[allow(non_snake_case)]
    pub fn DUCKED() -> (r: AiFlags)
        ensures
            r.bits == 0x800,
    {
        AiFlags { bits: 0x800 }
    }

    #[allow(non_snake_case)]
    pub fn COMBAT_POINT() -> (r: AiFlags)
        ensures
            r.bits == 0x1000,
    {
        AiFlags { bits: 0x1000 }
    }

    #[allow(non_snake_case)]
    pub fn MEDIC() -> (r: AiFlags)
        ensures
            r.bits == 0x2000,
    {
        AiFlags { bits: 0x2000 }
    }

    #[allow(non_snake_case)]
    pub fn RESURRECTING() -> (r: AiFlags)
        ensures
            r.bits == 0x4000,
    {
        AiFlags { bits: 0x4000 }
    }

    /// The empty set.
    pub fn empty() -> (r: Self)
        ensures
            r.bits == 0,
    {
        AiFlags { bits: 0 }
    }

    /// The raw bits.
    pub fn bits(&self) -> (r: u32)
        ensures
            r == self.bits,
    {
        self.bits
    }

    /// Every flag of `other` is set in `self`.
    pub fn contains(&self, other: Self) -> (r: bool)
        ensures
            r == (self.bits & other.bits == other.bits),
    {
        self.bits & other.bits == other.bits
    }

    /// The union of two sets.
    pub fn union(self, other: Self) -> (r: Self)
        ensures
            r.bits == self.bits | other.bits,
    {
        AiFlags { bits: self.bits | other.bits }
    }
}

impl core::ops::BitOr for AiFlags {
    type Output = AiFlags;

    fn bitor(self, other: Self) -> (r: Self)
        ensures
            r.bits == self.bits | other.bits,
    {
        self.union(other)
    }
}

impl vstd::std_specs::ops::BitOrSpecImpl for AiFlags {
    open spec fn obeys_bitor_spec() -> bool {
        true
    }

    open spec fn bitor_req(self, rhs: Self) -> bool {
        true
    }

    open spec fn bitor_spec(self, rhs: Self) -> Self {
        AiFlags { bits: self.bits | rhs.bits }
    }
}

/// Friendly-fire flag OR'd onto a means of death.
pub const MOD_FRIENDLY_FIRE: i32 = 0x0800_0000;

/// Maximum number of items in a player's inventory.
pub const MAX_ITEMS: usize = 256;

/// Maximum number of clip planes for a fly move.
pub const MAX_CLIP_PLANES: usize = 5;

/// How an entity moves each physics frame.
#[derive(Debug, Clone, Copy, Default, PartialEq, Eq, Hash)]
pub enum MoveType {
    /// Never moves.
    #[default]
    NoMove,
    /// Origin and angles change with no interaction.
    Noclip,
    /// No clip to world, push on box contact.
    Push,
    /// No clip to world, stops on box contact.
    Stop,
    /// Gravity (player walking).
    Walk,
    /// Gravity, special edge handling (monsters).
    Step,
    /// No gravity, free flight.
    Fly,
    /// Gravity, stops on first contact.
    Toss,
    /// Like fly but with a larger monster box.
    FlyMissile,
    /// Gravity, bounces on contact.
    Bounce,
}

/// What killed an entity, for obituaries and statistics (numbered from 0 in
/// declaration order).
#[derive(Debug, Clone, Copy, PartialEq, Eq, Hash)]
pub enum MeansOfDeath {
    Unknown,
    Blaster,
    Shotgun,
    SShotgun,
    Machinegun,
    Chaingun,
    Grenade,
    GrenadeSplash,
    Rocket,
    RocketSplash,
    Hyperblaster,
    Railgun,
    BfgLaser,
    BfgBlast,
    BfgEffect,
    Handgrenade,
    HandgrenadeSplash,
    Water,
    Slime,
    Lava,
    Crush,
    Telefrag,
    Falling,
    Suicide,
    HeldGrenade,
    Explosive,
    Barrel,
    Bomb,
    Exit,
    Splash,
    TargetLaser,
    TriggerHurt,
    Hit,
    TargetBlaster,
}

/// Entity dead state.
#[derive(Debug, Clone, Copy, Default, PartialEq, Eq)]
pub enum DeadFlag {
    #[default]
    No,
    Dying,
    Dead,
    Respawnable,
}

/// Whether an entity can be damaged.
#[derive(Debug, Clone, Copy, Default, PartialEq, Eq)]
pub enum TakeDamage {
    #[default]
    No,
    Yes,
    Aim,
}

/// Monster attack state.
#[derive(Debug, Clone, Copy, Default, PartialEq, Eq)]
pub enum AttackState {
    #[default]
    Straight,
    Sliding,
    Melee,
    Missile,
}

impl AttackState {
    /// The protocol number of the state (1 to 4).
    pub fn value(self) -> (r: i32)
        ensures
            r == match self {
                AttackState::Straight => 1i32,
                AttackState::Sliding => 2,
                AttackState::Melee => 3,
                AttackState::Missile => 4,
            },
    {
        match self {
            AttackState::Straight => 1,
            AttackState::Sliding => 2,
            AttackState::Melee => 3,
            AttackState::Missile => 4,
        }
    }
}

/// Armor class index for damage absorption.
#[derive(Debug, Clone, Copy, Default, PartialEq, Eq)]
pub enum ArmorType {
    #[default]
    NoArmor,
    Jacket,
    Combat,
    Body,
}

/// The most armor points of each class.
pub open spec fn armor_max(t: ArmorType) -> i32 {
    match t {
        ArmorType::NoArmor => 0,
        ArmorType::Jacket => 50,
        ArmorType::Combat => 100,
        ArmorType::Body => 200,
    }
}

impl ArmorType {
    /// The most armor points of this class.
    pub fn max_count(self) -> (r: i32)
        ensures
            r == armor_max(self),
    {
        match self {
            ArmorType::NoArmor => 0,
            ArmorType::Jacket => 50,
            ArmorType::Combat => 100,
            ArmorType::Body => 200,
        }
    }
}

/// Distance classification for monster AI.
#[derive(Debug, Clone, Copy, PartialEq, Eq)]
pub enum Range {
    Melee,
    Near,
    Mid,
    Far,
}

/// How deep an entity is submerged (ordered from dry to under).
#[derive(Debug, Clone, Copy, Default, PartialEq, Eq, PartialOrd, Ord)]
pub enum WaterLevel {
    /// Not in water.
    #[default]
    Dry,
    Feet,
    Waist,
    Head,
}

} // verus!
