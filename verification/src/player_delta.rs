//! Player-state delta compression on the wire: the flag short that says
//! which parts of the player state follow, the parts themselves, and the
//! stat slots that changed.
//!
//! View offsets, kick angles and gun offsets and angles travel as signed
//! bytes (the value times 4), view angles as 16-bit shorts, blends as bytes
//! (the value times 255); the library works on those integers and on
//! whether the floating-point values they come from changed.

use vstd::prelude::*;
use crate::delta::{bit_if, byte_of, has, lemma_step, opt};
use crate::net_msg::{
    advanced, at_cursor, byte_read, char_read, cursor_in_data, law_byte_roundtrip, law_char_roundtrip,
    law_long_roundtrip, law_short_roundtrip, lemma_at_cursor_split, long_bytes, long_read, short_bytes, short_read,
    MsgView, NetMsg,
};

verus! {

pub const PS_M_TYPE: u32 = 0x0001;
pub const PS_M_ORIGIN: u32 = 0x0002;
pub const PS_M_VELOCITY: u32 = 0x0004;
pub const PS_M_TIME: u32 = 0x0008;
pub const PS_M_FLAGS: u32 = 0x0010;
pub const PS_M_GRAVITY: u32 = 0x0020;
pub const PS_M_DELTA_ANGLES: u32 = 0x0040;
pub const PS_VIEWOFFSET: u32 = 0x0080;
pub const PS_VIEWANGLES: u32 = 0x0100;
pub const PS_KICKANGLES: u32 = 0x0200;
pub const PS_BLEND: u32 = 0x0400;
pub const PS_FOV: u32 = 0x0800;
pub const PS_WEAPONINDEX: u32 = 0x1000;
pub const PS_WEAPONFRAME: u32 = 0x2000;
pub const PS_RDFLAGS: u32 = 0x4000;
/// Every player-state flag bit that has a meaning.
pub const PS_ALL: u32 = 0x7FFF;

/// Opcode that starts a player state in a frame.
pub const SVC_PLAYERINFO: i32 = 17;

/// Number of stat slots.
pub const MAX_STATS: usize = 32;

/// How a player moves.
#[derive(Debug, Clone, Copy, PartialEq, Eq, Structural, Default)]
pub enum PmType {
    #[default]
    Normal,
    Spectator,
    Dead,
    Gib,
    Freeze,
}

/// The number a movement type travels as.
pub open spec fn pm_type_number(t: PmType) -> i32 {
    match t {
        PmType::Normal => 0,
        PmType::Spectator => 1,
        PmType::Dead => 2,
        PmType::Gib => 3,
        PmType::Freeze => 4,
    }
}

/// The movement type a number stands for; an unknown number is `Normal`.
pub open spec fn pm_type_of(b: i32) -> PmType {
    if b == 1 {
        PmType::Spectator
    } else if b == 2 {
        PmType::Dead
    } else if b == 3 {
        PmType::Gib
    } else if b == 4 {
        PmType::Freeze
    } else {
        PmType::Normal
    }
}

/// The number `t` travels as.
pub fn pm_type_to_byte(t: PmType) -> (r: i32)
    ensures
        r == pm_type_number(t),
{
    match t {
        PmType::Normal => 0,
        PmType::Spectator => 1,
        PmType::Dead => 2,
        PmType::Gib => 3,
        PmType::Freeze => 4,
    }
}

/// Convert a byte read from the network to a movement type; a number out
/// of range gives `Normal`.
pub fn pm_type_from_byte(b: i32) -> (r: PmType)
    ensures
        r == pm_type_of(b),
{
    if b == 1 {
        PmType::Spectator
    } else if b == 2 {
        PmType::Dead
    } else if b == 3 {
        PmType::Gib
    } else if b == 4 {
        PmType::Freeze
    } else {
        PmType::Normal
    }
}

/// The player state as it travels: movement state as it is, the other
/// fields as the integers they are sent as.
#[derive(Debug, Clone, Copy, PartialEq, Eq, Default)]
pub struct PlayerWire {
    pub pm_type: PmType,
    pub origin: [i16; 3],
    pub velocity: [i16; 3],
    pub pm_time: u8,
    pub pm_flags: u8,
    pub gravity: i16,
    pub delta_angles: [i16; 3],
    /// Each component times 4.
    pub viewoffset: [i32; 3],
    /// Each component as a 16-bit angle.
    pub viewangles: [i32; 3],
    /// Each component times 4.
    pub kick_angles: [i32; 3],
    pub gunindex: i32,
    pub gunframe: i32,
    /// Each component times 4.
    pub gunoffset: [i32; 3],
    /// Each component times 4.
    pub gunangles: [i32; 3],
    /// Each component times 255.
    pub blend: [i32; 4],
    pub fov: i32,
    pub rdflags: i32,
    pub stats: [i16; 32],
}

/// Which floating-point parts of the player state changed.
#[derive(Debug, Clone, Copy, PartialEq, Eq, Default)]
pub struct PlayerChanges {
    pub viewoffset: bool,
    pub viewangles: bool,
    pub kick_angles: bool,
    pub blend: bool,
    pub fov: bool,
    /// The gun offset or the gun angles.
    pub gun: bool,
}

/// Whether two triples differ.
pub open spec fn differ3(a: [i16; 3], b: [i16; 3]) -> bool {
    a[0] != b[0] || a[1] != b[1] || a[2] != b[2]
}

fn differ3_exec(a: &[i16; 3], b: &[i16; 3]) -> (r: bool)
    ensures
        r == differ3(*a, *b),
{
    a[0] != b[0] || a[1] != b[1] || a[2] != b[2]
}

/// `flags` with `bit` added when `cond` holds.
pub open spec fn with_if(flags: u32, cond: bool, bit: u32) -> u32 {
    if cond { flags | bit } else { flags }
}

fn with_if_exec(flags: u32, cond: bool, bit: u32) -> (r: u32)
    ensures
        r == with_if(flags, cond, bit),
{
    if cond { flags | bit } else { flags }
}

/// The player flags over the conditions that decide each of them; the
/// weapon index is always sent.
pub open spec fn player_word(t: bool, o: bool, v: bool, tm: bool, fl: bool, g: bool, da: bool, vo: bool, va: bool, ka: bool, bl: bool, fov: bool, rd: bool, wf: bool) -> u32 {
    bit_if(t, PS_M_TYPE) | bit_if(o, PS_M_ORIGIN) | bit_if(v, PS_M_VELOCITY) | bit_if(tm, PS_M_TIME) | bit_if(fl, PS_M_FLAGS) | bit_if(g, PS_M_GRAVITY) | bit_if(da, PS_M_DELTA_ANGLES) | bit_if(vo, PS_VIEWOFFSET) | bit_if(va, PS_VIEWANGLES) | bit_if(ka, PS_KICKANGLES) | bit_if(bl, PS_BLEND) | bit_if(fov, PS_FOV) | bit_if(rd, PS_RDFLAGS) | PS_WEAPONINDEX | bit_if(wf, PS_WEAPONFRAME)
}

/// The flags of the parts that changed; the weapon index is always sent.
pub open spec fn player_flags(old: PlayerWire, new: PlayerWire, ch: PlayerChanges) -> u32 {
    player_word(
        new.pm_type != old.pm_type,
        differ3(new.origin, old.origin),
        differ3(new.velocity, old.velocity),
        new.pm_time != old.pm_time,
        new.pm_flags != old.pm_flags,
        new.gravity != old.gravity,
        differ3(new.delta_angles, old.delta_angles),
        ch.viewoffset,
        ch.viewangles,
        ch.kick_angles,
        ch.blend,
        ch.fov,
        new.rdflags != old.rdflags,
        new.gunframe != old.gunframe || ch.gun,
    )
}

fn flag_if_exec(cond: bool, bit: u32) -> (r: u32)
    ensures
        r == bit_if(cond, bit),
{
    if cond { bit } else { 0 }
}

fn player_flags_exec(old: &PlayerWire, new: &PlayerWire, ch: &PlayerChanges) -> (r: u32)
    ensures
        r == player_flags(*old, *new, *ch),
{
    flag_if_exec(new.pm_type != old.pm_type, PS_M_TYPE) | flag_if_exec(differ3_exec(&new.origin, &old.origin), PS_M_ORIGIN) | flag_if_exec(differ3_exec(&new.velocity, &old.velocity), PS_M_VELOCITY) | flag_if_exec(new.pm_time != old.pm_time, PS_M_TIME) | flag_if_exec(new.pm_flags != old.pm_flags, PS_M_FLAGS) | flag_if_exec(new.gravity != old.gravity, PS_M_GRAVITY) | flag_if_exec(differ3_exec(&new.delta_angles, &old.delta_angles), PS_M_DELTA_ANGLES) | flag_if_exec(ch.viewoffset, PS_VIEWOFFSET) | flag_if_exec(ch.viewangles, PS_VIEWANGLES) | flag_if_exec(ch.kick_angles, PS_KICKANGLES) | flag_if_exec(ch.blend, PS_BLEND) | flag_if_exec(ch.fov, PS_FOV) | flag_if_exec(new.rdflags != old.rdflags, PS_RDFLAGS) | PS_WEAPONINDEX | flag_if_exec(new.gunframe != old.gunframe || ch.gun, PS_WEAPONFRAME)
}

/// Each player flag is set exactly when its condition holds, the weapon
/// index always, and no bit without a meaning.
proof fn lemma_player_word(t: bool, o: bool, v: bool, tm: bool, fl: bool, g: bool, da: bool, vo: bool, va: bool, ka: bool, bl: bool, fov: bool, rd: bool, wf: bool)
    by (bit_vector)
    ensures
        (player_word(t, o, v, tm, fl, g, da, vo, va, ka, bl, fov, rd, wf) & PS_M_TYPE != 0) == t,
        (player_word(t, o, v, tm, fl, g, da, vo, va, ka, bl, fov, rd, wf) & PS_M_ORIGIN != 0) == o,
        (player_word(t, o, v, tm, fl, g, da, vo, va, ka, bl, fov, rd, wf) & PS_M_VELOCITY != 0) == v,
        (player_word(t, o, v, tm, fl, g, da, vo, va, ka, bl, fov, rd, wf) & PS_M_TIME != 0) == tm,
        (player_word(t, o, v, tm, fl, g, da, vo, va, ka, bl, fov, rd, wf) & PS_M_FLAGS != 0) == fl,
        (player_word(t, o, v, tm, fl, g, da, vo, va, ka, bl, fov, rd, wf) & PS_M_GRAVITY != 0) == g,
        (player_word(t, o, v, tm, fl, g, da, vo, va, ka, bl, fov, rd, wf) & PS_M_DELTA_ANGLES != 0) == da,
        (player_word(t, o, v, tm, fl, g, da, vo, va, ka, bl, fov, rd, wf) & PS_VIEWOFFSET != 0) == vo,
        (player_word(t, o, v, tm, fl, g, da, vo, va, ka, bl, fov, rd, wf) & PS_VIEWANGLES != 0) == va,
        (player_word(t, o, v, tm, fl, g, da, vo, va, ka, bl, fov, rd, wf) & PS_KICKANGLES != 0) == ka,
        (player_word(t, o, v, tm, fl, g, da, vo, va, ka, bl, fov, rd, wf) & PS_BLEND != 0) == bl,
        (player_word(t, o, v, tm, fl, g, da, vo, va, ka, bl, fov, rd, wf) & PS_FOV != 0) == fov,
        (player_word(t, o, v, tm, fl, g, da, vo, va, ka, bl, fov, rd, wf) & PS_RDFLAGS != 0) == rd,
        (player_word(t, o, v, tm, fl, g, da, vo, va, ka, bl, fov, rd, wf) & PS_WEAPONFRAME != 0) == wf,
        player_word(t, o, v, tm, fl, g, da, vo, va, ka, bl, fov, rd, wf) & PS_WEAPONINDEX != 0,
        player_word(t, o, v, tm, fl, g, da, vo, va, ka, bl, fov, rd, wf) & !PS_ALL == 0,
{
}

/// The flags sent announce exactly the parts that changed: a movement part
/// when any of its components differs, a floating-point part when it
/// changed, the gun frame when it or the gun's offset or angles changed;
/// the weapon index always, and no bit without a meaning.
pub proof fn law_player_flags(old: PlayerWire, new: PlayerWire, ch: PlayerChanges)
    ensures
        has(player_flags(old, new, ch), PS_M_TYPE) == (new.pm_type != old.pm_type),
        has(player_flags(old, new, ch), PS_M_ORIGIN) == (new.origin[0] != old.origin[0] || new.origin[1] != old.origin[1]
            || new.origin[2] != old.origin[2]),
        has(player_flags(old, new, ch), PS_M_VELOCITY) == (new.velocity[0] != old.velocity[0] || new.velocity[1]
            != old.velocity[1] || new.velocity[2] != old.velocity[2]),
        has(player_flags(old, new, ch), PS_M_TIME) == (new.pm_time != old.pm_time),
        has(player_flags(old, new, ch), PS_M_FLAGS) == (new.pm_flags != old.pm_flags),
        has(player_flags(old, new, ch), PS_M_GRAVITY) == (new.gravity != old.gravity),
        has(player_flags(old, new, ch), PS_M_DELTA_ANGLES) == (new.delta_angles[0] != old.delta_angles[0]
            || new.delta_angles[1] != old.delta_angles[1] || new.delta_angles[2] != old.delta_angles[2]),
        has(player_flags(old, new, ch), PS_VIEWOFFSET) == ch.viewoffset,
        has(player_flags(old, new, ch), PS_VIEWANGLES) == ch.viewangles,
        has(player_flags(old, new, ch), PS_KICKANGLES) == ch.kick_angles,
        has(player_flags(old, new, ch), PS_BLEND) == ch.blend,
        has(player_flags(old, new, ch), PS_FOV) == ch.fov,
        has(player_flags(old, new, ch), PS_RDFLAGS) == (new.rdflags != old.rdflags),
        has(player_flags(old, new, ch), PS_WEAPONINDEX),
        has(player_flags(old, new, ch), PS_WEAPONFRAME) == (new.gunframe != old.gunframe || ch.gun),
        player_flags(old, new, ch) & !PS_ALL == 0,
{
    lemma_player_word(
        new.pm_type != old.pm_type,
        differ3(new.origin, old.origin),
        differ3(new.velocity, old.velocity),
        new.pm_time != old.pm_time,
        new.pm_flags != old.pm_flags,
        new.gravity != old.gravity,
        differ3(new.delta_angles, old.delta_angles),
        ch.viewoffset,
        ch.viewangles,
        ch.kick_angles,
        ch.blend,
        ch.fov,
        new.rdflags != old.rdflags,
        new.gunframe != old.gunframe || ch.gun,
    );
}

/// Three shorts.
pub open spec fn shorts3(a: i32, b: i32, c: i32) -> Seq<u8> {
    short_bytes(a) + short_bytes(b) + short_bytes(c)
}

/// Three bytes.
pub open spec fn bytes3(a: [i32; 3]) -> Seq<u8> {
    byte_of(a[0]) + byte_of(a[1]) + byte_of(a[2])
}

/// The movement part of the player state.
#[verifier::opaque]
pub open spec fn pmove_bytes(flags: u32, new: PlayerWire) -> Seq<u8> {
    opt(has(flags, PS_M_TYPE), byte_of(pm_type_number(new.pm_type)))
        + opt(has(flags, PS_M_ORIGIN), shorts3(new.origin[0] as i32, new.origin[1] as i32, new.origin[2] as i32))
        + opt(
            has(flags, PS_M_VELOCITY),
            shorts3(new.velocity[0] as i32, new.velocity[1] as i32, new.velocity[2] as i32),
        )
        + opt(has(flags, PS_M_TIME), byte_of(new.pm_time as i32))
        + opt(has(flags, PS_M_FLAGS), byte_of(new.pm_flags as i32))
        + opt(has(flags, PS_M_GRAVITY), short_bytes(new.gravity as i32))
        + opt(
            has(flags, PS_M_DELTA_ANGLES),
            shorts3(new.delta_angles[0] as i32, new.delta_angles[1] as i32, new.delta_angles[2] as i32),
        )
}

/// The view part of the player state.
#[verifier::opaque]
pub open spec fn view_bytes(flags: u32, new: PlayerWire) -> Seq<u8> {
    opt(has(flags, PS_VIEWOFFSET), bytes3(new.viewoffset))
        + opt(
            has(flags, PS_VIEWANGLES),
            shorts3(new.viewangles[0], new.viewangles[1], new.viewangles[2]),
        )
        + opt(has(flags, PS_KICKANGLES), bytes3(new.kick_angles))
        + opt(has(flags, PS_WEAPONINDEX), byte_of(new.gunindex))
        + opt(
            has(flags, PS_WEAPONFRAME),
            byte_of(new.gunframe) + bytes3(new.gunoffset) + bytes3(new.gunangles),
        )
        + opt(
            has(flags, PS_BLEND),
            byte_of(new.blend[0]) + byte_of(new.blend[1]) + byte_of(new.blend[2]) + byte_of(new.blend[3]),
        )
        + opt(has(flags, PS_FOV), byte_of(new.fov))
        + opt(has(flags, PS_RDFLAGS), byte_of(new.rdflags))
}

/// The mask of the stat slots below `n` that differ.
pub open spec fn stat_bits(old: PlayerWire, new: PlayerWire, n: nat) -> u32
    decreases n,
{
    if n == 0 {
        0u32
    } else {
        let k = (n - 1) as nat;
        with_if(stat_bits(old, new, k), new.stats[k as int] != old.stats[k as int], 1u32 << (k as u32))
    }
}

/// The values of the stat slots below `n` whose bit is set in `mask`.
pub open spec fn stat_bytes(mask: u32, new: PlayerWire, n: nat) -> Seq<u8>
    decreases n,
{
    if n == 0 {
        Seq::empty()
    } else {
        let k = (n - 1) as nat;
        stat_bytes(mask, new, k) + opt(mask & (1u32 << (k as u32)) != 0, short_bytes(new.stats[k as int] as i32))
    }
}

/// What `write_player_state` appends: the opcode, the flag short, the
/// changed parts, the mask of changed stat slots and their values.
pub open spec fn player_state_bytes(old: PlayerWire, new: PlayerWire, ch: PlayerChanges) -> Seq<u8> {
    let flags = player_flags(old, new, ch);
    let mask = stat_bits(old, new, MAX_STATS as nat);
    byte_of(SVC_PLAYERINFO) + short_bytes(flags as i32) + pmove_bytes(flags, new) + view_bytes(flags, new)
        + long_bytes(mask as i32) + stat_bytes(mask, new, MAX_STATS as nat)
}

fn put_byte(msg: &mut NetMsg, cond: bool, c: i32)
    requires
        cursor_in_data(old(msg)@),
    ensures
        cursor_in_data(final(msg)@),
        final(msg)@ == (MsgView { data: old(msg)@.data + opt(cond, byte_of(c)), ..old(msg)@ }),
{
    if cond {
        msg.write_byte(c);
        assert(final(msg)@.data =~= old(msg)@.data + opt(cond, byte_of(c)));
    } else {
        assert(old(msg)@.data + opt(cond, byte_of(c)) =~= old(msg)@.data);
    }
}

fn put_short(msg: &mut NetMsg, cond: bool, c: i32)
    requires
        cursor_in_data(old(msg)@),
    ensures
        cursor_in_data(final(msg)@),
        final(msg)@ == (MsgView { data: old(msg)@.data + opt(cond, short_bytes(c)), ..old(msg)@ }),
{
    if cond {
        msg.write_short(c);
    } else {
        assert(old(msg)@.data + opt(cond, short_bytes(c)) =~= old(msg)@.data);
    }
}

fn put_shorts3(msg: &mut NetMsg, cond: bool, a: i32, b: i32, c: i32)
    requires
        cursor_in_data(old(msg)@),
    ensures
        cursor_in_data(final(msg)@),
        final(msg)@ == (MsgView { data: old(msg)@.data + opt(cond, shorts3(a, b, c)), ..old(msg)@ }),
{
    if cond {
        msg.write_short(a);
        msg.write_short(b);
        msg.write_short(c);
        assert(final(msg)@.data =~= old(msg)@.data + shorts3(a, b, c));
    } else {
        assert(old(msg)@.data + opt(cond, shorts3(a, b, c)) =~= old(msg)@.data);
    }
}

fn put_bytes3(msg: &mut NetMsg, cond: bool, a: &[i32; 3])
    requires
        cursor_in_data(old(msg)@),
    ensures
        cursor_in_data(final(msg)@),
        final(msg)@ == (MsgView { data: old(msg)@.data + opt(cond, bytes3(*a)), ..old(msg)@ }),
{
    if cond {
        msg.write_char(a[0]);
        msg.write_char(a[1]);
        msg.write_char(a[2]);
        assert(final(msg)@.data =~= old(msg)@.data + bytes3(*a));
    } else {
        assert(old(msg)@.data + opt(cond, bytes3(*a)) =~= old(msg)@.data);
    }
}

#[verifier::rlimit(100)]
fn write_pmove(msg: &mut NetMsg, flags: u32, new: &PlayerWire)
    requires
        cursor_in_data(old(msg)@),
    ensures
        cursor_in_data(final(msg)@),
        final(msg)@ == (MsgView { data: old(msg)@.data + pmove_bytes(flags, *new), ..old(msg)@ }),
{
    let ghost start = msg@.data;
    put_byte(msg, flags & PS_M_TYPE != 0, pm_type_to_byte(new.pm_type));
    let ghost acc = opt(has(flags, PS_M_TYPE), byte_of(pm_type_number(new.pm_type)));
    put_shorts3(msg, flags & PS_M_ORIGIN != 0, new.origin[0] as i32, new.origin[1] as i32, new.origin[2] as i32);
    proof {
        let seg = opt(has(flags, PS_M_ORIGIN), shorts3(new.origin[0] as i32, new.origin[1] as i32, new.origin[2] as i32));
        lemma_step(start, acc, seg, msg@.data);
        acc = acc + seg;
    }
    put_shorts3(msg, flags & PS_M_VELOCITY != 0, new.velocity[0] as i32, new.velocity[1] as i32, new.velocity[2] as i32);
    proof {
        let seg = opt(
            has(flags, PS_M_VELOCITY),
            shorts3(new.velocity[0] as i32, new.velocity[1] as i32, new.velocity[2] as i32),
        );
        lemma_step(start, acc, seg, msg@.data);
        acc = acc + seg;
    }
    put_byte(msg, flags & PS_M_TIME != 0, new.pm_time as i32);
    proof {
        let seg = opt(has(flags, PS_M_TIME), byte_of(new.pm_time as i32));
        lemma_step(start, acc, seg, msg@.data);
        acc = acc + seg;
    }
    put_byte(msg, flags & PS_M_FLAGS != 0, new.pm_flags as i32);
    proof {
        let seg = opt(has(flags, PS_M_FLAGS), byte_of(new.pm_flags as i32));
        lemma_step(start, acc, seg, msg@.data);
        acc = acc + seg;
    }
    put_short(msg, flags & PS_M_GRAVITY != 0, new.gravity as i32);
    proof {
        let seg = opt(has(flags, PS_M_GRAVITY), short_bytes(new.gravity as i32));
        lemma_step(start, acc, seg, msg@.data);
        acc = acc + seg;
    }
    put_shorts3(
        msg,
        flags & PS_M_DELTA_ANGLES != 0,
        new.delta_angles[0] as i32,
        new.delta_angles[1] as i32,
        new.delta_angles[2] as i32,
    );
    proof {
        let seg = opt(
            has(flags, PS_M_DELTA_ANGLES),
            shorts3(new.delta_angles[0] as i32, new.delta_angles[1] as i32, new.delta_angles[2] as i32),
        );
        lemma_step(start, acc, seg, msg@.data);
        acc = acc + seg;
        assert(acc == pmove_bytes(flags, *new)) by {
            reveal(pmove_bytes);
        }
    }
}

fn put_gun(msg: &mut NetMsg, cond: bool, new: &PlayerWire)
    requires
        cursor_in_data(old(msg)@),
    ensures
        cursor_in_data(final(msg)@),
        final(msg)@ == (MsgView {
            data: old(msg)@.data + opt(cond, byte_of(new.gunframe) + bytes3(new.gunoffset) + bytes3(new.gunangles)),
            ..old(msg)@
        }),
{
    if cond {
        msg.write_byte(new.gunframe);
        let ghost a = msg@.data;
        put_bytes3(msg, true, &new.gunoffset);
        put_bytes3(msg, true, &new.gunangles);
        assert(msg@.data =~= old(msg)@.data + (byte_of(new.gunframe) + bytes3(new.gunoffset) + bytes3(new.gunangles)));
    } else {
        assert(old(msg)@.data + opt(cond, byte_of(new.gunframe) + bytes3(new.gunoffset) + bytes3(new.gunangles))
            =~= old(msg)@.data);
    }
}

fn put_blend(msg: &mut NetMsg, cond: bool, b: &[i32; 4])
    requires
        cursor_in_data(old(msg)@),
    ensures
        cursor_in_data(final(msg)@),
        final(msg)@ == (MsgView {
            data: old(msg)@.data + opt(cond, byte_of(b[0]) + byte_of(b[1]) + byte_of(b[2]) + byte_of(b[3])),
            ..old(msg)@
        }),
{
    if cond {
        msg.write_byte(b[0]);
        msg.write_byte(b[1]);
        msg.write_byte(b[2]);
        msg.write_byte(b[3]);
        assert(msg@.data =~= old(msg)@.data + (byte_of(b[0]) + byte_of(b[1]) + byte_of(b[2]) + byte_of(b[3])));
    } else {
        assert(old(msg)@.data + opt(cond, byte_of(b[0]) + byte_of(b[1]) + byte_of(b[2]) + byte_of(b[3]))
            =~= old(msg)@.data);
    }
}

#[verifier::rlimit(100)]
fn write_view(msg: &mut NetMsg, flags: u32, new: &PlayerWire)
    requires
        cursor_in_data(old(msg)@),
    ensures
        cursor_in_data(final(msg)@),
        final(msg)@ == (MsgView { data: old(msg)@.data + view_bytes(flags, *new), ..old(msg)@ }),
{
    let ghost start = msg@.data;
    put_bytes3(msg, flags & PS_VIEWOFFSET != 0, &new.viewoffset);
    let ghost acc = opt(has(flags, PS_VIEWOFFSET), bytes3(new.viewoffset));
    put_shorts3(msg, flags & PS_VIEWANGLES != 0, new.viewangles[0], new.viewangles[1], new.viewangles[2]);
    proof {
        let seg = opt(
            has(flags, PS_VIEWANGLES),
            shorts3(new.viewangles[0], new.viewangles[1], new.viewangles[2]),
        );
        lemma_step(start, acc, seg, msg@.data);
        acc = acc + seg;
    }
    put_bytes3(msg, flags & PS_KICKANGLES != 0, &new.kick_angles);
    proof {
        let seg = opt(has(flags, PS_KICKANGLES), bytes3(new.kick_angles));
        lemma_step(start, acc, seg, msg@.data);
        acc = acc + seg;
    }
    put_byte(msg, flags & PS_WEAPONINDEX != 0, new.gunindex);
    proof {
        let seg = opt(has(flags, PS_WEAPONINDEX), byte_of(new.gunindex));
        lemma_step(start, acc, seg, msg@.data);
        acc = acc + seg;
    }
    put_gun(msg, flags & PS_WEAPONFRAME != 0, new);
    proof {
        let seg = opt(
            has(flags, PS_WEAPONFRAME),
            byte_of(new.gunframe) + bytes3(new.gunoffset) + bytes3(new.gunangles),
        );
        lemma_step(start, acc, seg, msg@.data);
        acc = acc + seg;
    }
    put_blend(msg, flags & PS_BLEND != 0, &new.blend);
    proof {
        let seg = opt(
            has(flags, PS_BLEND),
            byte_of(new.blend[0]) + byte_of(new.blend[1]) + byte_of(new.blend[2]) + byte_of(new.blend[3]),
        );
        lemma_step(start, acc, seg, msg@.data);
        acc = acc + seg;
    }
    put_byte(msg, flags & PS_FOV != 0, new.fov);
    proof {
        let seg = opt(has(flags, PS_FOV), byte_of(new.fov));
        lemma_step(start, acc, seg, msg@.data);
        acc = acc + seg;
    }
    put_byte(msg, flags & PS_RDFLAGS != 0, new.rdflags);
    proof {
        let seg = opt(has(flags, PS_RDFLAGS), byte_of(new.rdflags));
        lemma_step(start, acc, seg, msg@.data);
        acc = acc + seg;
        assert(acc == view_bytes(flags, *new)) by {
            reveal(view_bytes);
        }
    }
}

fn stat_mask(old: &PlayerWire, new: &PlayerWire) -> (r: u32)
    ensures
        r == stat_bits(*old, *new, MAX_STATS as nat),
{
    let mut mask: u32 = 0;
    let mut i: usize = 0;
    while i < MAX_STATS
        invariant
            0 <= i <= MAX_STATS,
            mask == stat_bits(*old, *new, i as nat),
        decreases MAX_STATS - i,
    {
        mask = with_if_exec(mask, new.stats[i] != old.stats[i], 1u32 << (i as u32));
        i = i + 1;
    }
    mask
}

fn write_stats(msg: &mut NetMsg, mask: u32, new: &PlayerWire)
    requires
        cursor_in_data(old(msg)@),
    ensures
        cursor_in_data(final(msg)@),
        final(msg)@ == (MsgView { data: old(msg)@.data + stat_bytes(mask, *new, MAX_STATS as nat), ..old(msg)@ }),
{
    let mut i: usize = 0;
    while i < MAX_STATS
        invariant
            0 <= i <= MAX_STATS,
            cursor_in_data(msg@),
            msg@ == (MsgView { data: old(msg)@.data + stat_bytes(mask, *new, i as nat), ..old(msg)@ }),
        decreases MAX_STATS - i,
    {
        let ghost before = msg@.data;
        put_short(msg, mask & (1u32 << (i as u32)) != 0, new.stats[i] as i32);
        proof {
            lemma_step(
                old(msg)@.data,
                stat_bytes(mask, *new, i as nat),
                opt(mask & (1u32 << (i as u32)) != 0, short_bytes(new.stats[i as int] as i32)),
                msg@.data,
            );
        }
        i = i + 1;
    }
}

/// Write the player-state opcode, the flags of the parts that changed from
/// `prev` to `next`, those parts, and the changed stat slots; `moved` tells
/// which floating-point parts changed.
pub fn write_player_state(msg: &mut NetMsg, prev: &PlayerWire, next: &PlayerWire, moved: &PlayerChanges)
    requires
        cursor_in_data(old(msg)@),
    ensures
        cursor_in_data(final(msg)@),
        final(msg)@ == (MsgView { data: old(msg)@.data + player_state_bytes(*prev, *next, *moved), ..old(msg)@ }),
{
    let flags = player_flags_exec(prev, next, moved);
    let ghost start = msg@.data;
    msg.write_byte(SVC_PLAYERINFO);
    assert(msg@.data =~= start + byte_of(SVC_PLAYERINFO));
    msg.write_short(flags as i32);
    let ghost acc = byte_of(SVC_PLAYERINFO) + short_bytes(flags as i32);
    assert(msg@.data =~= start + acc);
    write_pmove(msg, flags, next);
    proof {
        lemma_step(start, acc, pmove_bytes(flags, *next), msg@.data);
        acc = acc + pmove_bytes(flags, *next);
    }
    write_view(msg, flags, next);
    proof {
        lemma_step(start, acc, view_bytes(flags, *next), msg@.data);
        acc = acc + view_bytes(flags, *next);
    }
    let mask = stat_mask(prev, next);
    msg.write_long(mask as i32);
    proof {
        lemma_step(start, acc, long_bytes(mask as i32), msg@.data);
        acc = acc + long_bytes(mask as i32);
    }
    write_stats(msg, mask, next);
    proof {
        lemma_step(start, acc, stat_bytes(mask, *next, MAX_STATS as nat), msg@.data);
    }
}


// ---------------------------------------------------------------------------
// Reading
// ---------------------------------------------------------------------------

/// The parts of a player state that a delta carries, each present only when
/// its flag was set; values are the integers as they travel.
#[derive(Debug, Clone, Copy, PartialEq, Eq)]
pub struct PlayerDeltaWire {
    pub pm_type: Option<PmType>,
    pub origin: Option<[i32; 3]>,
    pub velocity: Option<[i32; 3]>,
    pub pm_time: Option<i32>,
    pub pm_flags: Option<i32>,
    pub gravity: Option<i32>,
    pub delta_angles: Option<[i32; 3]>,
    pub viewoffset: Option<[i32; 3]>,
    pub viewangles: Option<[i32; 3]>,
    pub kick_angles: Option<[i32; 3]>,
    pub gunindex: Option<i32>,
    /// The gun frame, offset and angles.
    pub gun: Option<(i32, [i32; 3], [i32; 3])>,
    pub blend: Option<[i32; 4]>,
    pub fov: Option<i32>,
    pub rdflags: Option<i32>,
}

/// A byte read when `cond` holds.
pub open spec fn byte_if(v: MsgView, cond: bool) -> (Option<i32>, MsgView) {
    if cond {
        let (x, w) = byte_read(v);
        (Some(x), w)
    } else {
        (None, v)
    }
}

/// Three shorts read when `cond` holds.
pub open spec fn shorts3_if(v: MsgView, cond: bool) -> (Option<[i32; 3]>, MsgView) {
    if cond {
        let (a, v1) = short_read(v);
        let (b, v2) = short_read(v1);
        let (c, v3) = short_read(v2);
        (Some([a, b, c]), v3)
    } else {
        (None, v)
    }
}

/// Three signed bytes.
pub open spec fn chars3(v: MsgView) -> ([i32; 3], MsgView) {
    let (a, v1) = char_read(v);
    let (b, v2) = char_read(v1);
    let (c, v3) = char_read(v2);
    ([a, b, c], v3)
}

/// Three signed bytes read when `cond` holds.
pub open spec fn chars3_if(v: MsgView, cond: bool) -> (Option<[i32; 3]>, MsgView) {
    if cond {
        let (a, w) = chars3(v);
        (Some(a), w)
    } else {
        (None, v)
    }
}

/// The gun frame, offset and angles, read when `cond` holds.
pub open spec fn gun_if(v: MsgView, cond: bool) -> (Option<(i32, [i32; 3], [i32; 3])>, MsgView) {
    if cond {
        let (f, v1) = byte_read(v);
        let (o, v2) = chars3(v1);
        let (a, v3) = chars3(v2);
        (Some((f, o, a)), v3)
    } else {
        (None, v)
    }
}

/// The four blend bytes, read when `cond` holds.
pub open spec fn blend_if(v: MsgView, cond: bool) -> (Option<[i32; 4]>, MsgView) {
    if cond {
        let (a, v1) = byte_read(v);
        let (b, v2) = byte_read(v1);
        let (c, v3) = byte_read(v2);
        let (d, v4) = byte_read(v3);
        (Some([a, b, c, d]), v4)
    } else {
        (None, v)
    }
}

/// The flags of a player-state delta: the short read, with unknown bits
/// dropped.
pub open spec fn player_flags_read(v: MsgView) -> (u32, MsgView) {
    let (x, w) = short_read(v);
    (((x as u16) as u32) & PS_ALL, w)
}

/// The movement parts announced by `flags`.
pub open spec fn pmove_read(v: MsgView, flags: u32) -> (PlayerDeltaWire, MsgView) {
    let (t, v) = byte_if(v, has(flags, PS_M_TYPE));
    let (origin, v) = shorts3_if(v, has(flags, PS_M_ORIGIN));
    let (velocity, v) = shorts3_if(v, has(flags, PS_M_VELOCITY));
    let (pm_time, v) = byte_if(v, has(flags, PS_M_TIME));
    let (pm_flags, v) = byte_if(v, has(flags, PS_M_FLAGS));
    let (gravity, v) = if has(flags, PS_M_GRAVITY) {
        let (x, w) = short_read(v);
        (Some(x), w)
    } else {
        (None, v)
    };
    let (delta_angles, v) = shorts3_if(v, has(flags, PS_M_DELTA_ANGLES));
    (
        PlayerDeltaWire {
            pm_type: match t {
                Some(b) => Some(pm_type_of(b)),
                None => None,
            },
            origin,
            velocity,
            pm_time,
            pm_flags,
            gravity,
            delta_angles,
            viewoffset: None,
            viewangles: None,
            kick_angles: None,
            gunindex: None,
            gun: None,
            blend: None,
            fov: None,
            rdflags: None,
        },
        v,
    )
}

/// The view parts announced by `flags`, added to `d`.
pub open spec fn view_read(v: MsgView, flags: u32, d: PlayerDeltaWire) -> (PlayerDeltaWire, MsgView) {
    let (viewoffset, v) = chars3_if(v, has(flags, PS_VIEWOFFSET));
    let (viewangles, v) = shorts3_if(v, has(flags, PS_VIEWANGLES));
    let (kick_angles, v) = chars3_if(v, has(flags, PS_KICKANGLES));
    let (gunindex, v) = byte_if(v, has(flags, PS_WEAPONINDEX));
    let (gun, v) = gun_if(v, has(flags, PS_WEAPONFRAME));
    let (blend, v) = blend_if(v, has(flags, PS_BLEND));
    let (fov, v) = byte_if(v, has(flags, PS_FOV));
    let (rdflags, v) = byte_if(v, has(flags, PS_RDFLAGS));
    (PlayerDeltaWire { viewoffset, viewangles, kick_angles, gunindex, gun, blend, fov, rdflags, ..d }, v)
}

/// The stat slots below `n` whose bit is set in `mask`, read in order.
pub open spec fn stats_read(v: MsgView, mask: u32, n: nat) -> (Seq<Option<i16>>, MsgView)
    decreases n,
{
    if n == 0 {
        (Seq::empty(), v)
    } else {
        let k = (n - 1) as nat;
        let (s, w) = stats_read(v, mask, k);
        if mask & (1u32 << (k as u32)) != 0 {
            let (x, w2) = short_read(w);
            (s.push(Some(x as i16)), w2)
        } else {
            (s.push(None), w)
        }
    }
}

/// What `read_player_state` yields: the announced parts, the value of each
/// stat slot that was sent, and the state after.
pub open spec fn player_state_read(v: MsgView) -> (PlayerDeltaWire, Seq<Option<i16>>, MsgView) {
    let (flags, v) = player_flags_read(v);
    let (d, v) = pmove_read(v, flags);
    let (d, v) = view_read(v, flags, d);
    let (m, v) = long_read(v);
    let (stats, v) = stats_read(v, m as u32, MAX_STATS as nat);
    (d, stats, v)
}

fn byte_if_exec(msg: &mut NetMsg, cond: bool) -> (r: Option<i32>)
    requires
        cursor_in_data(old(msg)@),
    ensures
        cursor_in_data(final(msg)@),
        (r, final(msg)@) == byte_if(old(msg)@, cond),
{
    if cond { Some(msg.read_byte()) } else { None }
}

fn shorts3_if_exec(msg: &mut NetMsg, cond: bool) -> (r: Option<[i32; 3]>)
    requires
        cursor_in_data(old(msg)@),
    ensures
        cursor_in_data(final(msg)@),
        (r, final(msg)@) == shorts3_if(old(msg)@, cond),
{
    if cond {
        let a = msg.read_short();
        let b = msg.read_short();
        let c = msg.read_short();
        Some([a, b, c])
    } else {
        None
    }
}

fn chars3_exec(msg: &mut NetMsg) -> (r: [i32; 3])
    requires
        cursor_in_data(old(msg)@),
    ensures
        cursor_in_data(final(msg)@),
        (r, final(msg)@) == chars3(old(msg)@),
{
    let a = msg.read_char();
    let b = msg.read_char();
    let c = msg.read_char();
    [a, b, c]
}

fn chars3_if_exec(msg: &mut NetMsg, cond: bool) -> (r: Option<[i32; 3]>)
    requires
        cursor_in_data(old(msg)@),
    ensures
        cursor_in_data(final(msg)@),
        (r, final(msg)@) == chars3_if(old(msg)@, cond),
{
    if cond { Some(chars3_exec(msg)) } else { None }
}

fn gun_if_exec(msg: &mut NetMsg, cond: bool) -> (r: Option<(i32, [i32; 3], [i32; 3])>)
    requires
        cursor_in_data(old(msg)@),
    ensures
        cursor_in_data(final(msg)@),
        (r, final(msg)@) == gun_if(old(msg)@, cond),
{
    if cond {
        let f = msg.read_byte();
        let o = chars3_exec(msg);
        let a = chars3_exec(msg);
        Some((f, o, a))
    } else {
        None
    }
}

fn blend_if_exec(msg: &mut NetMsg, cond: bool) -> (r: Option<[i32; 4]>)
    requires
        cursor_in_data(old(msg)@),
    ensures
        cursor_in_data(final(msg)@),
        (r, final(msg)@) == blend_if(old(msg)@, cond),
{
    if cond {
        let a = msg.read_byte();
        let b = msg.read_byte();
        let c = msg.read_byte();
        let d = msg.read_byte();
        Some([a, b, c, d])
    } else {
        None
    }
}

fn read_pmove(msg: &mut NetMsg, flags: u32) -> (r: PlayerDeltaWire)
    requires
        cursor_in_data(old(msg)@),
    ensures
        cursor_in_data(final(msg)@),
        (r, final(msg)@) == pmove_read(old(msg)@, flags),
{
    let t = byte_if_exec(msg, flags & PS_M_TYPE != 0);
    let origin = shorts3_if_exec(msg, flags & PS_M_ORIGIN != 0);
    let velocity = shorts3_if_exec(msg, flags & PS_M_VELOCITY != 0);
    let pm_time = byte_if_exec(msg, flags & PS_M_TIME != 0);
    let pm_flags = byte_if_exec(msg, flags & PS_M_FLAGS != 0);
    let gravity = if flags & PS_M_GRAVITY != 0 {
        Some(msg.read_short())
    } else {
        None
    };
    let delta_angles = shorts3_if_exec(msg, flags & PS_M_DELTA_ANGLES != 0);
    PlayerDeltaWire {
        pm_type: match t {
            Some(b) => Some(pm_type_from_byte(b)),
            None => None,
        },
        origin,
        velocity,
        pm_time,
        pm_flags,
        gravity,
        delta_angles,
        viewoffset: None,
        viewangles: None,
        kick_angles: None,
        gunindex: None,
        gun: None,
        blend: None,
        fov: None,
        rdflags: None,
    }
}

fn read_view(msg: &mut NetMsg, flags: u32, d: PlayerDeltaWire) -> (r: PlayerDeltaWire)
    requires
        cursor_in_data(old(msg)@),
    ensures
        cursor_in_data(final(msg)@),
        (r, final(msg)@) == view_read(old(msg)@, flags, d),
{
    let viewoffset = chars3_if_exec(msg, flags & PS_VIEWOFFSET != 0);
    let viewangles = shorts3_if_exec(msg, flags & PS_VIEWANGLES != 0);
    let kick_angles = chars3_if_exec(msg, flags & PS_KICKANGLES != 0);
    let gunindex = byte_if_exec(msg, flags & PS_WEAPONINDEX != 0);
    let gun = gun_if_exec(msg, flags & PS_WEAPONFRAME != 0);
    let blend = blend_if_exec(msg, flags & PS_BLEND != 0);
    let fov = byte_if_exec(msg, flags & PS_FOV != 0);
    let rdflags = byte_if_exec(msg, flags & PS_RDFLAGS != 0);
    PlayerDeltaWire { viewoffset, viewangles, kick_angles, gunindex, gun, blend, fov, rdflags, ..d }
}

/// One value or `None` per stat slot read.
pub proof fn lemma_stats_len(v: MsgView, mask: u32, n: nat)
    ensures
        stats_read(v, mask, n).0.len() == n,
    decreases n,
{
    if n > 0 {
        lemma_stats_len(v, mask, (n - 1) as nat);
    }
}

fn read_stats(msg: &mut NetMsg, mask: u32) -> (r: Vec<Option<i16>>)
    requires
        cursor_in_data(old(msg)@),
    ensures
        cursor_in_data(final(msg)@),
        r@.len() == MAX_STATS,
        (r@, final(msg)@) == stats_read(old(msg)@, mask, MAX_STATS as nat),
{
    let mut out: Vec<Option<i16>> = Vec::new();
    let mut i: usize = 0;
    while i < MAX_STATS
        invariant
            0 <= i <= MAX_STATS,
            cursor_in_data(msg@),
            (out@, msg@) == stats_read(old(msg)@, mask, i as nat),
        decreases MAX_STATS - i,
    {
        if mask & (1u32 << (i as u32)) != 0 {
            let x = msg.read_short();
            out.push(Some(x as i16));
        } else {
            out.push(None);
        }
        i = i + 1;
    }
    proof {
        lemma_stats_len(old(msg)@, mask, MAX_STATS as nat);
    }
    out
}

/// Read a delta-compressed player state: the flag short, the parts it
/// announces, the mask of sent stat slots and their values (`None` for a
/// slot that was not sent).
pub fn read_player_state(msg: &mut NetMsg) -> (r: (PlayerDeltaWire, Vec<Option<i16>>))
    requires
        cursor_in_data(old(msg)@),
    ensures
        cursor_in_data(final(msg)@),
        ({
            let (d, stats, w) = player_state_read(old(msg)@);
            r.0 == d && r.1@ == stats && final(msg)@ == w
        }),
        r.1@.len() == MAX_STATS,
{
    let x = msg.read_short();
    let flags = ((x as u16) as u32) & PS_ALL;
    let d = read_pmove(msg, flags);
    let d = read_view(msg, flags, d);
    let m = msg.read_long();
    let stats = read_stats(msg, m as u32);
    (d, stats)
}

/// Three shorts as the 16-bit values they stand for.
pub open spec fn shorts_as_i16(a: [i32; 3]) -> [i16; 3] {
    [a[0] as i16, a[1] as i16, a[2] as i16]
}

fn shorts_as_i16_exec(a: [i32; 3]) -> (r: [i16; 3])
    ensures
        r == shorts_as_i16(a),
{
    [a[0] as i16, a[1] as i16, a[2] as i16]
}

/// The player state that a delta gives on top of `base` (the previous
/// state, or the default one for an uncompressed frame): each part the
/// delta carries replaces the one in `base`, each stat slot that was sent
/// replaces its value, and the rest is kept.
pub open spec fn player_applied(base: PlayerWire, d: PlayerDeltaWire, stats: Seq<Option<i16>>) -> PlayerWire {
    PlayerWire {
        pm_type: match d.pm_type { Some(t) => t, None => base.pm_type },
        origin: match d.origin { Some(o) => shorts_as_i16(o), None => base.origin },
        velocity: match d.velocity { Some(o) => shorts_as_i16(o), None => base.velocity },
        pm_time: match d.pm_time { Some(x) => x as u8, None => base.pm_time },
        pm_flags: match d.pm_flags { Some(x) => x as u8, None => base.pm_flags },
        gravity: match d.gravity { Some(x) => x as i16, None => base.gravity },
        delta_angles: match d.delta_angles { Some(o) => shorts_as_i16(o), None => base.delta_angles },
        viewoffset: match d.viewoffset { Some(o) => o, None => base.viewoffset },
        viewangles: match d.viewangles { Some(o) => o, None => base.viewangles },
        kick_angles: match d.kick_angles { Some(o) => o, None => base.kick_angles },
        gunindex: match d.gunindex { Some(x) => x, None => base.gunindex },
        gunframe: match d.gun { Some(g) => g.0, None => base.gunframe },
        gunoffset: match d.gun { Some(g) => g.1, None => base.gunoffset },
        gunangles: match d.gun { Some(g) => g.2, None => base.gunangles },
        blend: match d.blend { Some(b) => b, None => base.blend },
        fov: match d.fov { Some(x) => x, None => base.fov },
        rdflags: match d.rdflags { Some(x) => x, None => base.rdflags },
        stats: base.stats,
    }
}

/// Apply a delta read by `read_player_state` on top of `base`: the parts
/// as `player_applied` gives them, and each stat slot that was sent set to
/// the value read.
pub fn apply_player_delta(base: &PlayerWire, d: &PlayerDeltaWire, stats: &Vec<Option<i16>>) -> (r: PlayerWire)
    requires
        stats@.len() == MAX_STATS,
    ensures
        r == (PlayerWire { stats: r.stats, ..player_applied(*base, *d, stats@) }),
        forall|i: int|
            0 <= i < MAX_STATS ==> r.stats[i] == match stats@[i] {
                Some(x) => x,
                None => base.stats[i],
            },
{
    let mut out = PlayerWire {
        pm_type: match d.pm_type { Some(t) => t, None => base.pm_type },
        origin: match d.origin { Some(o) => shorts_as_i16_exec(o), None => base.origin },
        velocity: match d.velocity { Some(o) => shorts_as_i16_exec(o), None => base.velocity },
        pm_time: match d.pm_time { Some(x) => x as u8, None => base.pm_time },
        pm_flags: match d.pm_flags { Some(x) => x as u8, None => base.pm_flags },
        gravity: match d.gravity { Some(x) => x as i16, None => base.gravity },
        delta_angles: match d.delta_angles { Some(o) => shorts_as_i16_exec(o), None => base.delta_angles },
        viewoffset: match d.viewoffset { Some(o) => o, None => base.viewoffset },
        viewangles: match d.viewangles { Some(o) => o, None => base.viewangles },
        kick_angles: match d.kick_angles { Some(o) => o, None => base.kick_angles },
        gunindex: match d.gunindex { Some(x) => x, None => base.gunindex },
        gunframe: match d.gun { Some(g) => g.0, None => base.gunframe },
        gunoffset: match d.gun { Some(g) => g.1, None => base.gunoffset },
        gunangles: match d.gun { Some(g) => g.2, None => base.gunangles },
        blend: match d.blend { Some(b) => b, None => base.blend },
        fov: match d.fov { Some(x) => x, None => base.fov },
        rdflags: match d.rdflags { Some(x) => x, None => base.rdflags },
        stats: base.stats,
    };
    let ghost head = out;
    let mut st: [i16; 32] = base.stats;
    let mut i: usize = 0;
    while i < MAX_STATS
        invariant
            0 <= i <= MAX_STATS,
            stats@.len() == MAX_STATS,
            forall|j: int|
                0 <= j < i ==> st[j] == match stats@[j] {
                    Some(x) => x,
                    None => base.stats[j],
                },
            forall|j: int| i <= j < MAX_STATS ==> st[j] == base.stats[j],
        decreases MAX_STATS - i,
    {
        match stats[i] {
            Some(x) => {
                st[i] = x;
            },
            None => {},
        }
        i = i + 1;
    }
    out.stats = st;
    assert(out == (PlayerWire { stats: out.stats, ..player_applied(*base, *d, stats@) }));
    out
}

// ---------------------------------------------------------------------------
// Reading back what was written
// ---------------------------------------------------------------------------

/// A value as read: the value when its flag was set.
pub open spec fn when(c: bool, x: i32) -> Option<i32> {
    if c { Some(x) } else { None }
}

/// Three values as read: the values when their flag was set.
pub open spec fn when3(c: bool, a: [i32; 3]) -> Option<[i32; 3]> {
    if c { Some(a) } else { None }
}

/// A triple of 16-bit values as the shorts they travel as.
pub open spec fn wide3(a: [i16; 3]) -> [i32; 3] {
    [a[0] as i32, a[1] as i32, a[2] as i32]
}

proof fn lemma_byte_if_back(w: MsgView, c: bool, x: i32)
    requires
        at_cursor(w, opt(c, byte_of(x))),
        c ==> 0 <= x <= 255,
    ensures
        byte_if(w, c) == (when(c, x), advanced(w, opt(c, byte_of(x)).len())),
{
    if c {
        law_byte_roundtrip(w, x);
    } else {
        assert(advanced(w, 0) == w);
    }
}

proof fn lemma_shorts3_back(w: MsgView, a: [i32; 3])
    requires
        at_cursor(w, shorts3(a[0], a[1], a[2])),
        -32768 <= a[0] <= 32767,
        -32768 <= a[1] <= 32767,
        -32768 <= a[2] <= 32767,
    ensures
        shorts3_if(w, true) == (Some(a), advanced(w, 6)),
{
    lemma_at_cursor_split(w, short_bytes(a[0]) + short_bytes(a[1]), short_bytes(a[2]));
    lemma_at_cursor_split(w, short_bytes(a[0]), short_bytes(a[1]));
    law_short_roundtrip(w, a[0]);
    law_short_roundtrip(advanced(w, 2), a[1]);
    law_short_roundtrip(advanced(w, 4), a[2]);
    assert([a[0], a[1], a[2]] =~= a);
}

proof fn lemma_shorts3_if_back(w: MsgView, c: bool, a: [i32; 3])
    requires
        at_cursor(w, opt(c, shorts3(a[0], a[1], a[2]))),
        c ==> -32768 <= a[0] <= 32767 && -32768 <= a[1] <= 32767 && -32768 <= a[2] <= 32767,
    ensures
        shorts3_if(w, c) == (when3(c, a), advanced(w, opt(c, shorts3(a[0], a[1], a[2])).len())),
{
    if c {
        lemma_shorts3_back(w, a);
    } else {
        assert(advanced(w, 0) == w);
    }
}

/// Values that travel as signed bytes.
pub open spec fn chars_fit(a: [i32; 3]) -> bool {
    -128 <= a[0] <= 127 && -128 <= a[1] <= 127 && -128 <= a[2] <= 127
}

proof fn lemma_chars3_back(w: MsgView, a: [i32; 3])
    requires
        at_cursor(w, bytes3(a)),
        chars_fit(a),
    ensures
        chars3(w) == (a, advanced(w, 3)),
{
    lemma_at_cursor_split(w, byte_of(a[0]) + byte_of(a[1]), byte_of(a[2]));
    lemma_at_cursor_split(w, byte_of(a[0]), byte_of(a[1]));
    law_char_roundtrip(w, a[0]);
    law_char_roundtrip(advanced(w, 1), a[1]);
    law_char_roundtrip(advanced(w, 2), a[2]);
    assert([a[0], a[1], a[2]] =~= a);
}

proof fn lemma_chars3_if_back(w: MsgView, c: bool, a: [i32; 3])
    requires
        at_cursor(w, opt(c, bytes3(a))),
        c ==> chars_fit(a),
    ensures
        chars3_if(w, c) == (when3(c, a), advanced(w, opt(c, bytes3(a)).len())),
{
    if c {
        lemma_chars3_back(w, a);
    } else {
        assert(advanced(w, 0) == w);
    }
}

/// Reading a movement type gives back the type written.
proof fn lemma_pm_type_back(t: PmType)
    ensures
        pm_type_of(pm_type_number(t)) == t,
        0 <= pm_type_number(t) <= 4,
{
}

/// The movement parts as read where `pmove_bytes(flags, new)` was written.
pub open spec fn pmove_sent(flags: u32, new: PlayerWire) -> PlayerDeltaWire {
    PlayerDeltaWire {
        pm_type: if has(flags, PS_M_TYPE) { Some(new.pm_type) } else { None },
        origin: when3(has(flags, PS_M_ORIGIN), wide3(new.origin)),
        velocity: when3(has(flags, PS_M_VELOCITY), wide3(new.velocity)),
        pm_time: when(has(flags, PS_M_TIME), new.pm_time as i32),
        pm_flags: when(has(flags, PS_M_FLAGS), new.pm_flags as i32),
        gravity: when(has(flags, PS_M_GRAVITY), new.gravity as i32),
        delta_angles: when3(has(flags, PS_M_DELTA_ANGLES), wide3(new.delta_angles)),
        viewoffset: None,
        viewangles: None,
        kick_angles: None,
        gunindex: None,
        gun: None,
        blend: None,
        fov: None,
        rdflags: None,
    }
}

/// Reading the movement parts where they were written gives each sent
/// part back.
#[verifier::spinoff_prover]
#[verifier::rlimit(100)]
pub proof fn law_pmove_back(w: MsgView, flags: u32, new: PlayerWire)
    requires
        at_cursor(w, pmove_bytes(flags, new)),
    ensures
        pmove_read(w, flags) == (pmove_sent(flags, new), advanced(w, pmove_bytes(flags, new).len())),
{
    reveal(pmove_bytes);
    let s1 = opt(has(flags, PS_M_TYPE), byte_of(pm_type_number(new.pm_type)));
    let s2 = opt(has(flags, PS_M_ORIGIN), shorts3(new.origin[0] as i32, new.origin[1] as i32, new.origin[2] as i32));
    let s3 = opt(
        has(flags, PS_M_VELOCITY),
        shorts3(new.velocity[0] as i32, new.velocity[1] as i32, new.velocity[2] as i32),
    );
    let s4 = opt(has(flags, PS_M_TIME), byte_of(new.pm_time as i32));
    let s5 = opt(has(flags, PS_M_FLAGS), byte_of(new.pm_flags as i32));
    let s6 = opt(has(flags, PS_M_GRAVITY), short_bytes(new.gravity as i32));
    let s7 = opt(
        has(flags, PS_M_DELTA_ANGLES),
        shorts3(new.delta_angles[0] as i32, new.delta_angles[1] as i32, new.delta_angles[2] as i32),
    );
    let p2 = s1 + s2;
    let p3 = p2 + s3;
    let p4 = p3 + s4;
    let p5 = p4 + s5;
    let p6 = p5 + s6;
    assert(pmove_bytes(flags, new) == p6 + s7);
    lemma_at_cursor_split(w, p6, s7);
    lemma_at_cursor_split(w, p5, s6);
    lemma_at_cursor_split(w, p4, s5);
    lemma_at_cursor_split(w, p3, s4);
    lemma_at_cursor_split(w, p2, s3);
    lemma_at_cursor_split(w, s1, s2);
    lemma_pm_type_back(new.pm_type);
    lemma_byte_if_back(w, has(flags, PS_M_TYPE), pm_type_number(new.pm_type));
    assert(shorts3(new.origin[0] as i32, new.origin[1] as i32, new.origin[2] as i32) == shorts3(
        wide3(new.origin)[0],
        wide3(new.origin)[1],
        wide3(new.origin)[2],
    ));
    lemma_shorts3_if_back(advanced(w, s1.len()), has(flags, PS_M_ORIGIN), wide3(new.origin));
    lemma_shorts3_if_back(advanced(w, p2.len()), has(flags, PS_M_VELOCITY), wide3(new.velocity));
    lemma_byte_if_back(advanced(w, p3.len()), has(flags, PS_M_TIME), new.pm_time as i32);
    lemma_byte_if_back(advanced(w, p4.len()), has(flags, PS_M_FLAGS), new.pm_flags as i32);
    if has(flags, PS_M_GRAVITY) {
        law_short_roundtrip(advanced(w, p5.len()), new.gravity as i32);
    } else {
        assert(advanced(advanced(w, p5.len()), 0) == advanced(w, p5.len()));
    }
    lemma_shorts3_if_back(advanced(w, p6.len()), has(flags, PS_M_DELTA_ANGLES), wide3(new.delta_angles));
}

/// The values of a player state fit the widths they travel at: offsets,
/// kick and gun angles as signed bytes, view angles as shorts, gun index
/// and frame, blend, field of view and render flags as bytes.
pub open spec fn player_fits(p: PlayerWire) -> bool {
    &&& chars_fit(p.viewoffset)
    &&& chars_fit(p.kick_angles)
    &&& chars_fit(p.gunoffset)
    &&& chars_fit(p.gunangles)
    &&& forall|k: int| 0 <= k < 3 ==> -32768 <= #[trigger] p.viewangles[k] <= 32767
    &&& 0 <= p.gunindex <= 255
    &&& 0 <= p.gunframe <= 255
    &&& forall|k: int| 0 <= k < 4 ==> 0 <= #[trigger] p.blend[k] <= 255
    &&& 0 <= p.fov <= 255
    &&& 0 <= p.rdflags <= 255
}

/// The view parts as read where `view_bytes(flags, new)` was written,
/// added to `d`.
pub open spec fn view_sent(flags: u32, new: PlayerWire, d: PlayerDeltaWire) -> PlayerDeltaWire {
    PlayerDeltaWire {
        viewoffset: when3(has(flags, PS_VIEWOFFSET), new.viewoffset),
        viewangles: when3(has(flags, PS_VIEWANGLES), new.viewangles),
        kick_angles: when3(has(flags, PS_KICKANGLES), new.kick_angles),
        gunindex: when(has(flags, PS_WEAPONINDEX), new.gunindex),
        gun: if has(flags, PS_WEAPONFRAME) { Some((new.gunframe, new.gunoffset, new.gunangles)) } else { None },
        blend: if has(flags, PS_BLEND) { Some(new.blend) } else { None },
        fov: when(has(flags, PS_FOV), new.fov),
        rdflags: when(has(flags, PS_RDFLAGS), new.rdflags),
        ..d
    }
}

proof fn lemma_gun_back(w: MsgView, c: bool, new: PlayerWire)
    requires
        at_cursor(w, opt(c, byte_of(new.gunframe) + bytes3(new.gunoffset) + bytes3(new.gunangles))),
        c ==> player_fits(new),
    ensures
        gun_if(w, c) == (
            if c { Some((new.gunframe, new.gunoffset, new.gunangles)) } else { None },
            advanced(w, opt(c, byte_of(new.gunframe) + bytes3(new.gunoffset) + bytes3(new.gunangles)).len()),
        ),
{
    if c {
        let a = byte_of(new.gunframe);
        let b = bytes3(new.gunoffset);
        let e = bytes3(new.gunangles);
        lemma_at_cursor_split(w, a + b, e);
        lemma_at_cursor_split(w, a, b);
        law_byte_roundtrip(w, new.gunframe);
        lemma_chars3_back(advanced(w, 1), new.gunoffset);
        lemma_chars3_back(advanced(w, 4), new.gunangles);
    } else {
        assert(advanced(w, 0) == w);
    }
}

proof fn lemma_blend_back(w: MsgView, c: bool, bl: [i32; 4])
    requires
        at_cursor(w, opt(c, byte_of(bl[0]) + byte_of(bl[1]) + byte_of(bl[2]) + byte_of(bl[3]))),
        c ==> forall|k: int| 0 <= k < 4 ==> 0 <= #[trigger] bl[k] <= 255,
    ensures
        blend_if(w, c) == (
            if c { Some(bl) } else { None },
            advanced(w, opt(c, byte_of(bl[0]) + byte_of(bl[1]) + byte_of(bl[2]) + byte_of(bl[3])).len()),
        ),
{
    if c {
        let b0 = byte_of(bl[0]);
        let b1 = byte_of(bl[1]);
        let b2 = byte_of(bl[2]);
        let b3 = byte_of(bl[3]);
        lemma_at_cursor_split(w, b0 + b1 + b2, b3);
        lemma_at_cursor_split(w, b0 + b1, b2);
        lemma_at_cursor_split(w, b0, b1);
        assert(0 <= bl[0] <= 255 && 0 <= bl[1] <= 255 && 0 <= bl[2] <= 255 && 0 <= bl[3] <= 255);
        law_byte_roundtrip(w, bl[0]);
        law_byte_roundtrip(advanced(w, 1), bl[1]);
        law_byte_roundtrip(advanced(w, 2), bl[2]);
        law_byte_roundtrip(advanced(w, 3), bl[3]);
        assert([bl[0], bl[1], bl[2], bl[3]] =~= bl);
    } else {
        assert(advanced(w, 0) == w);
    }
}

/// Reading the view parts where they were written gives each sent part
/// back.
#[verifier::spinoff_prover]
#[verifier::rlimit(100)]
pub proof fn law_view_back(w: MsgView, flags: u32, new: PlayerWire, d: PlayerDeltaWire)
    requires
        at_cursor(w, view_bytes(flags, new)),
        player_fits(new),
    ensures
        view_read(w, flags, d) == (view_sent(flags, new, d), advanced(w, view_bytes(flags, new).len())),
{
    reveal(view_bytes);
    let s1 = opt(has(flags, PS_VIEWOFFSET), bytes3(new.viewoffset));
    let s2 = opt(has(flags, PS_VIEWANGLES), shorts3(new.viewangles[0], new.viewangles[1], new.viewangles[2]));
    let s3 = opt(has(flags, PS_KICKANGLES), bytes3(new.kick_angles));
    let s4 = opt(has(flags, PS_WEAPONINDEX), byte_of(new.gunindex));
    let s5 = opt(has(flags, PS_WEAPONFRAME), byte_of(new.gunframe) + bytes3(new.gunoffset) + bytes3(new.gunangles));
    let s6 = opt(
        has(flags, PS_BLEND),
        byte_of(new.blend[0]) + byte_of(new.blend[1]) + byte_of(new.blend[2]) + byte_of(new.blend[3]),
    );
    let s7 = opt(has(flags, PS_FOV), byte_of(new.fov));
    let s8 = opt(has(flags, PS_RDFLAGS), byte_of(new.rdflags));
    let p2 = s1 + s2;
    let p3 = p2 + s3;
    let p4 = p3 + s4;
    let p5 = p4 + s5;
    let p6 = p5 + s6;
    let p7 = p6 + s7;
    assert(view_bytes(flags, new) == p7 + s8);
    lemma_at_cursor_split(w, p7, s8);
    lemma_at_cursor_split(w, p6, s7);
    lemma_at_cursor_split(w, p5, s6);
    lemma_at_cursor_split(w, p4, s5);
    lemma_at_cursor_split(w, p3, s4);
    lemma_at_cursor_split(w, p2, s3);
    lemma_at_cursor_split(w, s1, s2);
    assert(-32768 <= new.viewangles[0] <= 32767);
    assert(-32768 <= new.viewangles[1] <= 32767);
    assert(-32768 <= new.viewangles[2] <= 32767);
    lemma_chars3_if_back(w, has(flags, PS_VIEWOFFSET), new.viewoffset);
    lemma_shorts3_if_back(advanced(w, s1.len()), has(flags, PS_VIEWANGLES), new.viewangles);
    lemma_chars3_if_back(advanced(w, p2.len()), has(flags, PS_KICKANGLES), new.kick_angles);
    lemma_byte_if_back(advanced(w, p3.len()), has(flags, PS_WEAPONINDEX), new.gunindex);
    lemma_gun_back(advanced(w, p4.len()), has(flags, PS_WEAPONFRAME), new);
    lemma_blend_back(advanced(w, p5.len()), has(flags, PS_BLEND), new.blend);
    lemma_byte_if_back(advanced(w, p6.len()), has(flags, PS_FOV), new.fov);
    lemma_byte_if_back(advanced(w, p7.len()), has(flags, PS_RDFLAGS), new.rdflags);
}

/// Adding a bit to a mask changes only that bit.
proof fn lemma_mask_step(f: u32, g: u32, c: bool, k: u32, j: u32)
    by (bit_vector)
    requires
        k < 32,
        j < 32,
        g == if c { f | (1u32 << k) } else { f },
    ensures
        j != k ==> ((g & (1u32 << j)) != 0) == ((f & (1u32 << j)) != 0),
        ((g & (1u32 << k)) != 0) == (c || (f & (1u32 << k)) != 0),
        (0u32 & (1u32 << j)) == 0,
{
}

/// The stat mask holds the bit of each slot below `n` whose value changed,
/// and no other.
pub proof fn law_stat_bits(old: PlayerWire, new: PlayerWire, n: nat)
    requires
        n <= 32,
    ensures
        forall|j: u32|
            j < 32 ==> ((#[trigger] (stat_bits(old, new, n) & (1u32 << j))) != 0) == (j < n && new.stats[j as int]
                != old.stats[j as int]),
    decreases n,
{
    if n == 0 {
        assert forall|j: u32| j < 32 implies ((#[trigger] (stat_bits(old, new, n) & (1u32 << j))) != 0) == (j < n
            && new.stats[j as int] != old.stats[j as int]) by {
            lemma_mask_step(0, 0, false, 0, j);
        }
    } else {
        let k = (n - 1) as nat;
        law_stat_bits(old, new, k);
        let f = stat_bits(old, new, k);
        let c = new.stats[k as int] != old.stats[k as int];
        let g = stat_bits(old, new, n);
        assert(g == with_if(f, c, 1u32 << (k as u32)));
        assert forall|j: u32| j < 32 implies ((#[trigger] (stat_bits(old, new, n) & (1u32 << j))) != 0) == (j < n
            && new.stats[j as int] != old.stats[j as int]) by {
            lemma_mask_step(f, g, c, k as u32, j);
        }
    }
}

/// The stat slots as read where `stat_bytes(mask, new, n)` was written.
pub open spec fn stats_sent(mask: u32, new: PlayerWire, n: nat) -> Seq<Option<i16>> {
    Seq::new(n, |k: int| if mask & (1u32 << (k as u32)) != 0 { Some(new.stats[k]) } else { None })
}

/// Reading the stat values where they were written gives each sent value
/// back.
pub proof fn law_stats_back(w: MsgView, mask: u32, new: PlayerWire, n: nat)
    requires
        n <= 32,
        at_cursor(w, stat_bytes(mask, new, n)),
    ensures
        stats_read(w, mask, n) == (stats_sent(mask, new, n), advanced(w, stat_bytes(mask, new, n).len())),
    decreases n,
{
    if n == 0 {
        assert(stats_sent(mask, new, 0) =~= Seq::<Option<i16>>::empty());
        assert(advanced(w, 0) == w);
    } else {
        let k = (n - 1) as nat;
        let front = stat_bytes(mask, new, k);
        let c = mask & (1u32 << (k as u32)) != 0;
        let seg = opt(c, short_bytes(new.stats[k as int] as i32));
        lemma_at_cursor_split(w, front, seg);
        law_stats_back(w, mask, new, k);
        let w1 = advanced(w, front.len());
        if c {
            law_short_roundtrip(w1, new.stats[k as int] as i32);
            assert(stats_sent(mask, new, n) =~= stats_sent(mask, new, k).push(Some(new.stats[k as int])));
        } else {
            assert(stats_sent(mask, new, n) =~= stats_sent(mask, new, k).push(None));
        }
    }
}

/// The flag short read back gives the flags.
proof fn lemma_flag_short(flags: u32)
    by (bit_vector)
    requires
        flags & !PS_ALL == 0,
    ensures
        (((((flags as i32) as i16) as i32) as u16) as u32) & PS_ALL == flags,
{
}

proof fn lemma_mask_long(m: u32)
    by (bit_vector)
    ensures
        ((m as i32) as u32) == m,
{
}

/// `ch` tells the truth about the floating-point parts of the player
/// state: a part said unchanged is equal in both states.
pub open spec fn view_agree(old: PlayerWire, new: PlayerWire, ch: PlayerChanges) -> bool {
    &&& !ch.viewoffset ==> new.viewoffset == old.viewoffset
    &&& !ch.viewangles ==> new.viewangles == old.viewangles
    &&& !ch.kick_angles ==> new.kick_angles == old.kick_angles
    &&& !ch.blend ==> new.blend == old.blend
    &&& !ch.fov ==> new.fov == old.fov
    &&& !ch.gun ==> new.gunoffset == old.gunoffset && new.gunangles == old.gunangles
}

/// Reading a player state that `write_player_state` wrote for `old` ->
/// `new` (after its opcode) and applying it on `old` gives `new` back: each
/// part, and each stat slot (a slot not sent keeps `old`'s value, which is
/// `new`'s); the cursor ends after the bytes. This holds when the values
/// fit their widths and `ch` tells the truth.
#[verifier::spinoff_prover]
#[verifier::rlimit(100)]
pub proof fn law_player_state_roundtrip(v: MsgView, old: PlayerWire, new: PlayerWire, ch: PlayerChanges)
    requires
        at_cursor(v, player_state_bytes(old, new, ch)),
        player_fits(new),
        view_agree(old, new, ch),
    ensures
        byte_read(v) == (SVC_PLAYERINFO, advanced(v, 1)),
        ({
            let (d, stats, w) = player_state_read(advanced(v, 1));
            &&& w == advanced(v, player_state_bytes(old, new, ch).len())
            &&& stats.len() == MAX_STATS
            &&& (PlayerWire { stats: new.stats, ..player_applied(old, d, stats) }) == new
            &&& forall|i: int|
                0 <= i < MAX_STATS ==> (match stats[i] {
                    Some(x) => x,
                    None => old.stats[i],
                }) == new.stats[i]
        }),
{
    let flags = player_flags(old, new, ch);
    let mask = stat_bits(old, new, MAX_STATS as nat);
    law_player_flags(old, new, ch);
    law_stat_bits(old, new, MAX_STATS as nat);
    let op = byte_of(SVC_PLAYERINFO);
    let sf = short_bytes(flags as i32);
    let pm = pmove_bytes(flags, new);
    let vw = view_bytes(flags, new);
    let lm = long_bytes(mask as i32);
    let sb = stat_bytes(mask, new, MAX_STATS as nat);
    assert(player_state_bytes(old, new, ch) == op + sf + pm + vw + lm + sb);
    lemma_at_cursor_split(v, op + sf + pm + vw + lm, sb);
    lemma_at_cursor_split(v, op + sf + pm + vw, lm);
    lemma_at_cursor_split(v, op + sf + pm, vw);
    lemma_at_cursor_split(v, op + sf, pm);
    lemma_at_cursor_split(v, op, sf);
    law_byte_roundtrip(v, SVC_PLAYERINFO);
    let v1 = advanced(v, 1);
    law_short_roundtrip(v1, flags as i32);
    lemma_flag_short(flags);
    assert(player_flags_read(v1) == (flags, advanced(v1, 2)));
    let v2 = advanced(v1, 2);
    law_pmove_back(v2, flags, new);
    let v3 = advanced(v2, pm.len());
    law_view_back(v3, flags, new, pmove_sent(flags, new));
    let v4 = advanced(v3, vw.len());
    law_long_roundtrip(v4, mask as i32);
    lemma_mask_long(mask);
    let v5 = advanced(v4, 4);
    law_stats_back(v5, mask, new, MAX_STATS as nat);
    let (d, stats, w) = player_state_read(v1);
    assert(d == view_sent(flags, new, pmove_sent(flags, new)));
    assert(stats == stats_sent(mask, new, MAX_STATS as nat));
    assert forall|i: int| 0 <= i < MAX_STATS implies (match stats[i] {
        Some(x) => x,
        None => old.stats[i],
    }) == new.stats[i] by {
        let j = i as u32;
        assert(j < 32);
        assert((mask & (1u32 << j)) != 0 == (new.stats[i] != old.stats[i]));
    }
    let r = PlayerWire { stats: new.stats, ..player_applied(old, d, stats) };
    assert(r.origin =~= new.origin);
    assert(r.velocity =~= new.velocity);
    assert(r.delta_angles =~= new.delta_angles);
    assert(r == new);
}

} // verus!
