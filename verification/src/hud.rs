//! Player HUD: the stats that the client draws, taken from the player.

use vstd::prelude::*;
use crate::items::{inventory_ok, PickupPlayer};

verus! {

/// Stat slot of the health shown on the HUD.
pub const STAT_HEALTH: usize = 1;
/// Stat slot of the armor shown on the HUD.
pub const STAT_ARMOR: usize = 5;
/// Stat slot of the frag count shown on the HUD.
pub const STAT_FRAGS: usize = 14;
/// Inventory slot that holds the armor count.
pub const ARMOR_SLOT: usize = 1;

/// The stats after an update: health, armor (inventory slot 1) and frags
/// written to their slots, each truncated to 16 bits. A player that is
/// missing or not a client leaves the stats as they are.
pub open spec fn updated_stats(player: Option<PickupPlayer>, score: i32, stats: Seq<i16>) -> Seq<i16> {
    match player {
        Some(p) => match p.inventory {
            Some(inv) => stats.update(STAT_HEALTH as int, p.health as i16).update(
                STAT_ARMOR as int,
                inv@[ARMOR_SLOT as int] as i16,
            ).update(STAT_FRAGS as int, score as i16),
            None => stats,
        },
        None => stats,
    }
}

/// Update the player's HUD stats with the current health, armor and frag
/// count.
pub fn update_player_stats(player: &Option<PickupPlayer>, score: i32, stats: &mut Vec<i16>)
    requires
        inventory_ok(*player),
        STAT_FRAGS < old(stats)@.len(),
    ensures
        final(stats)@ == updated_stats(*player, score, old(stats)@),
{
    match player {
        Some(p) => match &p.inventory {
            Some(inv) => {
                let armor = inv[ARMOR_SLOT];
                stats.set(STAT_HEALTH, p.health as i16);
                stats.set(STAT_ARMOR, armor as i16);
                stats.set(STAT_FRAGS, score as i16);
            },
            None => {},
        },
        None => {},
    }
}

} // verus!
