//! Entity delta compression on the wire: which fields of an entity are sent,
//! at what width and in which order, and the flag bytes that announce them.
//!
//! Coordinates and angles travel as shorts (a coordinate times 8, an angle
//! times 65536/360); the library works on those shorts, and on whether the
//! floating-point values they come from changed.

use vstd::prelude::*;
use crate::net_msg::{advanced, at_cursor, byte_read, cursor_in_data, law_byte_roundtrip, law_long_roundtrip, law_short_roundtrip, lemma_at_cursor_split, long_bytes, long_read, short_bytes, short_read, MsgView, NetMsg};

verus! {

pub const U_ORIGIN1: u32 = 0x0000_0001;
pub const U_ORIGIN2: u32 = 0x0000_0002;
pub const U_ANGLE2: u32 = 0x0000_0004;
pub const U_ANGLE3: u32 = 0x0000_0008;
pub const U_FRAME8: u32 = 0x0000_0010;
pub const U_EVENT: u32 = 0x0000_0020;
pub const U_REMOVE: u32 = 0x0000_0040;
pub const U_MOREBITS1: u32 = 0x0000_0080;
pub const U_NUMBER16: u32 = 0x0000_0100;
pub const U_ORIGIN3: u32 = 0x0000_0200;
pub const U_ANGLE1: u32 = 0x0000_0400;
pub const U_MODEL: u32 = 0x0000_0800;
pub const U_RENDERFX8: u32 = 0x0000_1000;
pub const U_EFFECTS8: u32 = 0x0000_4000;
pub const U_MOREBITS2: u32 = 0x0000_8000;
pub const U_SKIN8: u32 = 0x0001_0000;
pub const U_FRAME16: u32 = 0x0002_0000;
pub const U_RENDERFX16: u32 = 0x0004_0000;
pub const U_EFFECTS16: u32 = 0x0008_0000;
pub const U_MODEL2: u32 = 0x0010_0000;
pub const U_MODEL3: u32 = 0x0020_0000;
pub const U_MODEL4: u32 = 0x0040_0000;
pub const U_MOREBITS3: u32 = 0x0080_0000;
pub const U_OLDORIGIN: u32 = 0x0100_0000;
pub const U_SKIN16: u32 = 0x0200_0000;
pub const U_SOUND: u32 = 0x0400_0000;
pub const U_SOLID: u32 = 0x0800_0000;

/// The fields of an entity as they travel: integers as they are, each
/// coordinate as its short (the coordinate times 8) and each angle as its
/// 16-bit short (the angle times 65536/360).
#[derive(Debug, Clone, Copy, PartialEq, Eq, Default)]
pub struct EntityWire {
    pub number: i32,
    pub origin: [i32; 3],
    pub angles: [i32; 3],
    pub old_origin: [i32; 3],
    pub modelindex: i32,
    pub modelindex2: i32,
    pub modelindex3: i32,
    pub modelindex4: i32,
    pub frame: i32,
    pub skinnum: i32,
    pub effects: u32,
    pub renderfx: i32,
    pub solid: i32,
    pub sound: i32,
    pub event: i32,
}

/// Which floating-point fields of an entity differ between the two states:
/// each origin and angle component, and the old origin as a whole.
#[derive(Debug, Clone, Copy, PartialEq, Eq, Default)]
pub struct FloatChanges {
    pub origin: [bool; 3],
    pub angles: [bool; 3],
    pub old_origin: bool,
}

/// `flags` with `bit` added when `cond` holds.
#[verifier::opaque]
pub open spec fn add_if(flags: u32, cond: bool, bit: u32) -> u32 {
    if cond { flags | bit } else { flags }
}

/// `bit` when `cond` holds, else no bit.
pub open spec fn bit_if(cond: bool, bit: u32) -> u32 {
    if cond { bit } else { 0 }
}

/// The width flags of a value that changed: the 8-bit flag alone when it is
/// below 256, else both flags; none when it did not change.
pub open spec fn width_bits(changed: bool, small: bool, bit8: u32, bit16: u32) -> u32 {
    if changed {
        if small { bit8 } else { bit8 | bit16 }
    } else {
        0
    }
}

/// The field flags over the conditions that decide each of them.
pub open spec fn field_word(
    o0: bool, o1: bool, o2: bool, a0: bool, a1: bool, a2: bool,
    sk: bool, sks: bool, fr: bool, frs: bool, ef: bool, efs: bool, rf: bool, rfs: bool,
    so: bool, ev: bool, m1: bool, m2: bool, m3: bool, m4: bool, snd: bool, oo: bool,
) -> u32 {
    bit_if(o0, U_ORIGIN1) | bit_if(o1, U_ORIGIN2) | bit_if(o2, U_ORIGIN3) | bit_if(a0, U_ANGLE1) | bit_if(a1, U_ANGLE2)
        | bit_if(a2, U_ANGLE3) | width_bits(sk, sks, U_SKIN8, U_SKIN16) | width_bits(fr, frs, U_FRAME8, U_FRAME16)
        | width_bits(ef, efs, U_EFFECTS8, U_EFFECTS16) | width_bits(rf, rfs, U_RENDERFX8, U_RENDERFX16) | bit_if(so, U_SOLID)
        | bit_if(ev, U_EVENT) | bit_if(m1, U_MODEL) | bit_if(m2, U_MODEL2) | bit_if(m3, U_MODEL3) | bit_if(m4, U_MODEL4)
        | bit_if(snd, U_SOUND) | bit_if(oo, U_OLDORIGIN)
}

/// The flags of the fields that changed from `from` to `to`.
pub open spec fn changed_flags(from: EntityWire, to: EntityWire, ch: FloatChanges, newentity: bool) -> u32 {
    field_word(
        ch.origin[0],
        ch.origin[1],
        ch.origin[2],
        ch.angles[0],
        ch.angles[1],
        ch.angles[2],
        to.skinnum != from.skinnum,
        to.skinnum < 256,
        to.frame != from.frame,
        to.frame < 256,
        to.effects != from.effects,
        to.effects < 256,
        to.renderfx != from.renderfx,
        to.renderfx < 256,
        to.solid != from.solid,
        to.event != from.event,
        to.modelindex != from.modelindex,
        to.modelindex2 != from.modelindex2,
        to.modelindex3 != from.modelindex3,
        to.modelindex4 != from.modelindex4,
        to.sound != from.sound,
        ch.old_origin || newentity,
    )
}

/// The flags sent: the changed fields, the 16-bit number flag for entity
/// numbers from 256 on, and each MOREBITS flag that announces a further
/// flag byte, the highest first so that it is itself announced.
pub open spec fn sent_flags(changed: u32, number: i32) -> u32 {
    let f = add_if(changed, number >= 256, U_NUMBER16);
    let f = add_if(f, f & 0xFF00_0000 != 0, U_MOREBITS3);
    let f = add_if(f, f & 0x00FF_0000 != 0, U_MOREBITS2);
    add_if(f, f & 0x0000_FF00 != 0, U_MOREBITS1)
}

/// Whether `flags` holds `bit`.
pub open spec fn has(flags: u32, bit: u32) -> bool {
    flags & bit != 0
}

/// `bytes` when `cond` holds, nothing otherwise.
pub open spec fn opt(cond: bool, bytes: Seq<u8>) -> Seq<u8> {
    if cond { bytes } else { Seq::empty() }
}

/// The byte that `write_byte` appends for `c`.
pub open spec fn byte_of(c: i32) -> Seq<u8> {
    seq![c as u8]
}

/// A value sent as a byte, a short or a long by its two width flags: both
/// give a long, the 8-bit flag alone a byte, the 16-bit flag alone nothing
/// (it is never sent alone).
pub open spec fn sized_bytes(bits: u32, bit8: u32, bit16: u32, c: i32) -> Seq<u8> {
    if has(bits, bit8) {
        if has(bits, bit16) { long_bytes(c) } else { byte_of(c) }
    } else {
        Seq::empty()
    }
}

/// The flag bytes and the entity number.
#[verifier::opaque]
pub open spec fn header_bytes(bits: u32, number: i32) -> Seq<u8> {
    byte_of((bits as i32) & 0xFF)
        + opt(has(bits, U_MOREBITS1), byte_of(((bits >> 8u32) as i32) & 0xFF))
        + opt(has(bits, U_MOREBITS2), byte_of(((bits >> 16u32) as i32) & 0xFF))
        + opt(has(bits, U_MOREBITS3), byte_of(((bits >> 24u32) as i32) & 0xFF))
        + if has(bits, U_NUMBER16) { short_bytes(number) } else { byte_of(number) }
}

/// What `write_delta_entity` appends: nothing when no field changed and the
/// entity is not forced out; otherwise the flag bytes, the number and the
/// changed fields.
pub open spec fn entity_delta_bytes(
    from: EntityWire,
    to: EntityWire,
    ch: FloatChanges,
    force: bool,
    newentity: bool,
) -> Seq<u8> {
    let changed = changed_flags(from, to, ch, newentity);
    if changed == 0 && !force {
        Seq::empty()
    } else {
        let bits = sent_flags(changed, to.number);
        header_bytes(bits, to.number) + field_bytes_a(bits, to) + field_bytes_b(bits, to) + field_bytes_c(
            bits,
            to,
        )
    }
}

pub proof fn lemma_step(start: Seq<u8>, acc: Seq<u8>, seg: Seq<u8>, data: Seq<u8>)
    requires
        data == (start + acc) + seg,
    ensures
        data == start + (acc + seg),
{
    vstd::seq_lib::lemma_concat_associative(start, acc, seg);
}

fn add_if_exec(flags: u32, cond: bool, bit: u32) -> (r: u32)
    ensures
        r == add_if(flags, cond, bit),
{
    reveal(add_if);
    if cond { flags | bit } else { flags }
}

fn opt_byte(msg: &mut NetMsg, cond: bool, c: i32)
    requires
        cursor_in_data(old(msg)@),
    ensures
        cursor_in_data(final(msg)@),
        final(msg)@ == (MsgView { data: old(msg)@.data + opt(cond, byte_of(c)), ..old(msg)@ }),
{
    if cond {
        msg.write_byte(c);
        assert(final(msg)@.data =~= old(msg)@.data + opt(cond, byte_of(c)));
    } else {
        assert(old(msg)@.data + opt(cond, byte_of(c)) =~= old(msg)@.data);
    }
}

fn opt_short(msg: &mut NetMsg, cond: bool, c: i32)
    requires
        cursor_in_data(old(msg)@),
    ensures
        cursor_in_data(final(msg)@),
        final(msg)@ == (MsgView { data: old(msg)@.data + opt(cond, short_bytes(c)), ..old(msg)@ }),
{
    if cond {
        msg.write_short(c);
    } else {
        assert(old(msg)@.data + opt(cond, short_bytes(c)) =~= old(msg)@.data);
    }
}

fn write_sized(msg: &mut NetMsg, bits: u32, bit8: u32, bit16: u32, c: i32)
    requires
        cursor_in_data(old(msg)@),
    ensures
        cursor_in_data(final(msg)@),
        final(msg)@ == (MsgView { data: old(msg)@.data + sized_bytes(bits, bit8, bit16, c), ..old(msg)@ }),
{
    if bits & bit8 != 0 {
        if bits & bit16 != 0 {
            msg.write_long(c);
        } else {
            msg.write_byte(c);
            assert(final(msg)@.data =~= old(msg)@.data + byte_of(c));
        }
    } else {
        assert(old(msg)@.data + sized_bytes(bits, bit8, bit16, c) =~= old(msg)@.data);
    }
}

fn bit_if_exec(cond: bool, bit: u32) -> (r: u32)
    ensures
        r == bit_if(cond, bit),
{
    if cond { bit } else { 0 }
}

fn width_bits_exec(changed: bool, small: bool, bit8: u32, bit16: u32) -> (r: u32)
    ensures
        r == width_bits(changed, small, bit8, bit16),
{
    if changed {
        if small { bit8 } else { bit8 | bit16 }
    } else {
        0
    }
}

#[verifier::spinoff_prover]
#[verifier::rlimit(40)]
fn changed_flags_exec(from: &EntityWire, to: &EntityWire, moved: &FloatChanges, newentity: bool) -> (r: u32)
    ensures
        r == changed_flags(*from, *to, *moved, newentity),
{
    bit_if_exec(moved.origin[0], U_ORIGIN1) | bit_if_exec(moved.origin[1], U_ORIGIN2) | bit_if_exec(moved.origin[2], U_ORIGIN3)
        | bit_if_exec(moved.angles[0], U_ANGLE1) | bit_if_exec(moved.angles[1], U_ANGLE2) | bit_if_exec(
        moved.angles[2],
        U_ANGLE3,
    ) | width_bits_exec(to.skinnum != from.skinnum, to.skinnum < 256, U_SKIN8, U_SKIN16) | width_bits_exec(
        to.frame != from.frame,
        to.frame < 256,
        U_FRAME8,
        U_FRAME16,
    ) | width_bits_exec(to.effects != from.effects, to.effects < 256, U_EFFECTS8, U_EFFECTS16) | width_bits_exec(
        to.renderfx != from.renderfx,
        to.renderfx < 256,
        U_RENDERFX8,
        U_RENDERFX16,
    ) | bit_if_exec(to.solid != from.solid, U_SOLID) | bit_if_exec(to.event != from.event, U_EVENT) | bit_if_exec(
        to.modelindex != from.modelindex,
        U_MODEL,
    ) | bit_if_exec(to.modelindex2 != from.modelindex2, U_MODEL2) | bit_if_exec(to.modelindex3 != from.modelindex3, U_MODEL3)
        | bit_if_exec(to.modelindex4 != from.modelindex4, U_MODEL4) | bit_if_exec(to.sound != from.sound, U_SOUND)
        | bit_if_exec(moved.old_origin || newentity, U_OLDORIGIN)
}

fn sent_flags_exec(changed: u32, number: i32) -> (r: u32)
    ensures
        r == sent_flags(changed, number),
{
    let f = add_if_exec(changed, number >= 256, U_NUMBER16);
    let f = add_if_exec(f, f & 0xFF00_0000 != 0, U_MOREBITS3);
    let f = add_if_exec(f, f & 0x00FF_0000 != 0, U_MOREBITS2);
    add_if_exec(f, f & 0x0000_FF00 != 0, U_MOREBITS1)
}

fn write_header(msg: &mut NetMsg, bits: u32, number: i32)
    requires
        cursor_in_data(old(msg)@),
    ensures
        cursor_in_data(final(msg)@),
        final(msg)@ == (MsgView { data: old(msg)@.data + header_bytes(bits, number), ..old(msg)@ }),
{
    let ghost start = msg@.data;
    msg.write_byte((bits as i32) & 0xFF);
    assert(msg@.data =~= start + byte_of((bits as i32) & 0xFF));
    opt_byte(msg, bits & U_MOREBITS1 != 0, ((bits >> 8u32) as i32) & 0xFF);
    opt_byte(msg, bits & U_MOREBITS2 != 0, ((bits >> 16u32) as i32) & 0xFF);
    opt_byte(msg, bits & U_MOREBITS3 != 0, ((bits >> 24u32) as i32) & 0xFF);
    let ghost mid = msg@.data;
    if bits & U_NUMBER16 != 0 {
        msg.write_short(number);
    } else {
        msg.write_byte(number);
    }
    assert(msg@.data =~= mid + if has(bits, U_NUMBER16) { short_bytes(number) } else { byte_of(number) });
    assert(msg@.data =~= start + header_bytes(bits, number)) by {
        reveal(header_bytes);
    }
}

/// The first announced fields: model indices, frame, skin, effects, renderfx.
#[verifier::opaque]
pub open spec fn field_bytes_a(bits: u32, to: EntityWire) -> Seq<u8> {
    opt(has(bits, U_MODEL), byte_of(to.modelindex))
        + opt(has(bits, U_MODEL2), byte_of(to.modelindex2))
        + opt(has(bits, U_MODEL3), byte_of(to.modelindex3))
        + opt(has(bits, U_MODEL4), byte_of(to.modelindex4))
        + (if has(bits, U_FRAME8) {
            if has(bits, U_FRAME16) { short_bytes(to.frame) } else { byte_of(to.frame) }
        } else {
            Seq::empty()
        })
        + sized_bytes(bits, U_SKIN8, U_SKIN16, to.skinnum)
        + sized_bytes(bits, U_EFFECTS8, U_EFFECTS16, to.effects as i32)
        + sized_bytes(bits, U_RENDERFX8, U_RENDERFX16, to.renderfx)
}

/// The position fields: origin and angles.
#[verifier::opaque]
pub open spec fn field_bytes_b(bits: u32, to: EntityWire) -> Seq<u8> {
    opt(has(bits, U_ORIGIN1), short_bytes(to.origin[0]))
        + opt(has(bits, U_ORIGIN2), short_bytes(to.origin[1]))
        + opt(has(bits, U_ORIGIN3), short_bytes(to.origin[2]))
        + opt(has(bits, U_ANGLE1), short_bytes(to.angles[0]))
        + opt(has(bits, U_ANGLE2), short_bytes(to.angles[1]))
        + opt(has(bits, U_ANGLE3), short_bytes(to.angles[2]))
}

/// The last fields: old origin, sound, event, solid.
#[verifier::opaque]
pub open spec fn field_bytes_c(bits: u32, to: EntityWire) -> Seq<u8> {
    opt(
        has(bits, U_OLDORIGIN),
        short_bytes(to.old_origin[0]) + short_bytes(to.old_origin[1]) + short_bytes(to.old_origin[2]),
    )
        + opt(has(bits, U_SOUND), byte_of(to.sound))
        + opt(has(bits, U_EVENT), byte_of(to.event))
        + opt(has(bits, U_SOLID), short_bytes(to.solid))
}

fn write_fields_a(msg: &mut NetMsg, bits: u32, to: &EntityWire)
    requires
        cursor_in_data(old(msg)@),
    ensures
        cursor_in_data(final(msg)@),
        final(msg)@ == (MsgView { data: old(msg)@.data + field_bytes_a(bits, *to), ..old(msg)@ }),
{
    let ghost start = msg@.data;
    opt_byte(msg, bits & U_MODEL != 0, to.modelindex);
    let ghost acc = opt(has(bits, U_MODEL), byte_of(to.modelindex));
    opt_byte(msg, bits & U_MODEL2 != 0, to.modelindex2);
    proof {
        lemma_step(start, acc, opt(has(bits, U_MODEL2), byte_of(to.modelindex2)), msg@.data);
        acc = acc + opt(has(bits, U_MODEL2), byte_of(to.modelindex2));
    }
    opt_byte(msg, bits & U_MODEL3 != 0, to.modelindex3);
    proof {
        lemma_step(start, acc, opt(has(bits, U_MODEL3), byte_of(to.modelindex3)), msg@.data);
        acc = acc + opt(has(bits, U_MODEL3), byte_of(to.modelindex3));
    }
    opt_byte(msg, bits & U_MODEL4 != 0, to.modelindex4);
    proof {
        lemma_step(start, acc, opt(has(bits, U_MODEL4), byte_of(to.modelindex4)), msg@.data);
        acc = acc + opt(has(bits, U_MODEL4), byte_of(to.modelindex4));
    }
    let ghost before_frame = msg@.data;
    if bits & U_FRAME8 != 0 {
        if bits & U_FRAME16 != 0 {
            msg.write_short(to.frame);
        } else {
            msg.write_byte(to.frame);
        }
    }
    let ghost fseg = if has(bits, U_FRAME8) {
        if has(bits, U_FRAME16) { short_bytes(to.frame) } else { byte_of(to.frame) }
    } else {
        Seq::<u8>::empty()
    };
    assert(msg@.data =~= before_frame + fseg);
    proof {
        lemma_step(start, acc, fseg, msg@.data);
        acc = acc + fseg;
    }
    write_sized(msg, bits, U_SKIN8, U_SKIN16, to.skinnum);
    proof {
        lemma_step(start, acc, sized_bytes(bits, U_SKIN8, U_SKIN16, to.skinnum), msg@.data);
        acc = acc + sized_bytes(bits, U_SKIN8, U_SKIN16, to.skinnum);
    }
    write_sized(msg, bits, U_EFFECTS8, U_EFFECTS16, to.effects as i32);
    proof {
        lemma_step(start, acc, sized_bytes(bits, U_EFFECTS8, U_EFFECTS16, to.effects as i32), msg@.data);
        acc = acc + sized_bytes(bits, U_EFFECTS8, U_EFFECTS16, to.effects as i32);
    }
    write_sized(msg, bits, U_RENDERFX8, U_RENDERFX16, to.renderfx);
    proof {
        lemma_step(start, acc, sized_bytes(bits, U_RENDERFX8, U_RENDERFX16, to.renderfx), msg@.data);
        acc = acc + sized_bytes(bits, U_RENDERFX8, U_RENDERFX16, to.renderfx);
    }
    assert(acc == field_bytes_a(bits, *to)) by {
        reveal(field_bytes_a);
    }
}

fn write_fields_b(msg: &mut NetMsg, bits: u32, to: &EntityWire)
    requires
        cursor_in_data(old(msg)@),
    ensures
        cursor_in_data(final(msg)@),
        final(msg)@ == (MsgView { data: old(msg)@.data + field_bytes_b(bits, *to), ..old(msg)@ }),
{
    let ghost start = msg@.data;
    opt_short(msg, bits & U_ORIGIN1 != 0, to.origin[0]);
    let ghost acc = opt(has(bits, U_ORIGIN1), short_bytes(to.origin[0]));
    opt_short(msg, bits & U_ORIGIN2 != 0, to.origin[1]);
    proof {
        lemma_step(start, acc, opt(has(bits, U_ORIGIN2), short_bytes(to.origin[1])), msg@.data);
        acc = acc + opt(has(bits, U_ORIGIN2), short_bytes(to.origin[1]));
    }
    opt_short(msg, bits & U_ORIGIN3 != 0, to.origin[2]);
    proof {
        lemma_step(start, acc, opt(has(bits, U_ORIGIN3), short_bytes(to.origin[2])), msg@.data);
        acc = acc + opt(has(bits, U_ORIGIN3), short_bytes(to.origin[2]));
    }
    opt_short(msg, bits & U_ANGLE1 != 0, to.angles[0]);
    proof {
        lemma_step(start, acc, opt(has(bits, U_ANGLE1), short_bytes(to.angles[0])), msg@.data);
        acc = acc + opt(has(bits, U_ANGLE1), short_bytes(to.angles[0]));
    }
    opt_short(msg, bits & U_ANGLE2 != 0, to.angles[1]);
    proof {
        lemma_step(start, acc, opt(has(bits, U_ANGLE2), short_bytes(to.angles[1])), msg@.data);
        acc = acc + opt(has(bits, U_ANGLE2), short_bytes(to.angles[1]));
    }
    opt_short(msg, bits & U_ANGLE3 != 0, to.angles[2]);
    proof {
        lemma_step(start, acc, opt(has(bits, U_ANGLE3), short_bytes(to.angles[2])), msg@.data);
        acc = acc + opt(has(bits, U_ANGLE3), short_bytes(to.angles[2]));
    }
    assert(acc == field_bytes_b(bits, *to)) by {
        reveal(field_bytes_b);
    }
}

fn write_fields_c(msg: &mut NetMsg, bits: u32, to: &EntityWire)
    requires
        cursor_in_data(old(msg)@),
    ensures
        cursor_in_data(final(msg)@),
        final(msg)@ == (MsgView { data: old(msg)@.data + field_bytes_c(bits, *to), ..old(msg)@ }),
{
    let ghost start = msg@.data;
    if bits & U_OLDORIGIN != 0 {
        msg.write_short(to.old_origin[0]);
        msg.write_short(to.old_origin[1]);
        msg.write_short(to.old_origin[2]);
    }
    let ghost acc = opt(
        has(bits, U_OLDORIGIN),
        short_bytes(to.old_origin[0]) + short_bytes(to.old_origin[1]) + short_bytes(to.old_origin[2]),
    );
    assert(msg@.data =~= start + acc);
    opt_byte(msg, bits & U_SOUND != 0, to.sound);
    proof {
        lemma_step(start, acc, opt(has(bits, U_SOUND), byte_of(to.sound)), msg@.data);
        acc = acc + opt(has(bits, U_SOUND), byte_of(to.sound));
    }
    opt_byte(msg, bits & U_EVENT != 0, to.event);
    proof {
        lemma_step(start, acc, opt(has(bits, U_EVENT), byte_of(to.event)), msg@.data);
        acc = acc + opt(has(bits, U_EVENT), byte_of(to.event));
    }
    opt_short(msg, bits & U_SOLID != 0, to.solid);
    proof {
        lemma_step(start, acc, opt(has(bits, U_SOLID), short_bytes(to.solid)), msg@.data);
        acc = acc + opt(has(bits, U_SOLID), short_bytes(to.solid));
    }
    assert(acc == field_bytes_c(bits, *to)) by {
        reveal(field_bytes_c);
    }
}

/// Write only the fields that changed between `from` and `to`, announced by
/// flag bytes; `moved` tells which floating-point fields changed. With no
/// change and no `force`, nothing is written. A new entity always carries
/// its old origin.
pub fn write_delta_entity(
    msg: &mut NetMsg,
    from: &EntityWire,
    to: &EntityWire,
    moved: &FloatChanges,
    force: bool,
    newentity: bool,
)
    requires
        cursor_in_data(old(msg)@),
    ensures
        cursor_in_data(final(msg)@),
        final(msg)@ == (MsgView {
            data: old(msg)@.data + entity_delta_bytes(*from, *to, *moved, force, newentity),
            ..old(msg)@
        }),
{
    let changed = changed_flags_exec(from, to, moved, newentity);
    if changed == 0 && !force {
        assert(old(msg)@.data + entity_delta_bytes(*from, *to, *moved, force, newentity) =~= old(msg)@.data);
        return;
    }
    let bits = sent_flags_exec(changed, to.number);
    let ghost start = msg@.data;
    let ghost h = header_bytes(bits, to.number);
    let ghost fa = field_bytes_a(bits, *to);
    let ghost fb = field_bytes_b(bits, *to);
    let ghost fc = field_bytes_c(bits, *to);
    write_header(msg, bits, to.number);
    write_fields_a(msg, bits, to);
    proof {
        lemma_step(start, h, fa, msg@.data);
    }
    write_fields_b(msg, bits, to);
    proof {
        lemma_step(start, h + fa, fb, msg@.data);
    }
    write_fields_c(msg, bits, to);
    proof {
        lemma_step(start, h + fa + fb, fc, msg@.data);
    }
}


// ---------------------------------------------------------------------------
// Reading
// ---------------------------------------------------------------------------

/// Every flag bit that has a meaning; others are dropped when read.
pub const U_ALL: u32 = 0x0FFF_DFFF;

/// The fields that an entity delta carries, each present only when its flag
/// was set; the event is 0 when absent, since events last one frame.
#[derive(Debug, Clone, Copy, PartialEq, Eq)]
pub struct EntityDeltaWire {
    pub modelindex: Option<i32>,
    pub modelindex2: Option<i32>,
    pub modelindex3: Option<i32>,
    pub modelindex4: Option<i32>,
    pub frame: Option<i32>,
    pub skinnum: Option<i32>,
    pub effects: Option<u32>,
    pub renderfx: Option<i32>,
    pub origin: [Option<i32>; 3],
    pub angles: [Option<i32>; 3],
    pub old_origin: Option<[i32; 3]>,
    pub sound: Option<i32>,
    pub event: i32,
    pub solid: Option<i32>,
}

/// A byte read when `cond` holds.
pub open spec fn opt_byte_read(v: MsgView, cond: bool) -> (Option<i32>, MsgView) {
    if cond {
        let (x, w) = byte_read(v);
        (Some(x), w)
    } else {
        (None, v)
    }
}

/// A short read when `cond` holds.
pub open spec fn opt_short_read(v: MsgView, cond: bool) -> (Option<i32>, MsgView) {
    if cond {
        let (x, w) = short_read(v);
        (Some(x), w)
    } else {
        (None, v)
    }
}

/// A value read at the width its two flags give: both a long, the 8-bit
/// flag a byte, the 16-bit flag a short.
pub open spec fn sized_read(v: MsgView, bits: u32, bit8: u32, bit16: u32) -> (Option<i32>, MsgView) {
    if has(bits, bit8) && has(bits, bit16) {
        let (x, w) = long_read(v);
        (Some(x), w)
    } else if has(bits, bit8) {
        let (x, w) = byte_read(v);
        (Some(x), w)
    } else if has(bits, bit16) {
        let (x, w) = short_read(v);
        (Some(x), w)
    } else {
        (None, v)
    }
}

/// The frame: a short when both frame flags or the 16-bit one alone are
/// set, a byte for the 8-bit flag alone.
pub open spec fn frame_read(v: MsgView, bits: u32) -> (Option<i32>, MsgView) {
    if has(bits, U_FRAME8) && has(bits, U_FRAME16) {
        let (x, w) = short_read(v);
        (Some(x), w)
    } else if has(bits, U_FRAME8) {
        let (x, w) = byte_read(v);
        (Some(x), w)
    } else if has(bits, U_FRAME16) {
        let (x, w) = short_read(v);
        (Some(x), w)
    } else {
        (None, v)
    }
}

/// `bits` with the flag byte read at `shift` added when `more` is set.
pub open spec fn more_bits_read(v: MsgView, bits: u32, more: u32, shift: u32) -> (u32, MsgView) {
    if has(bits, more) {
        let (x, w) = byte_read(v);
        (bits | ((x as u32) << shift), w)
    } else {
        (bits, v)
    }
}

/// What `read_entity_bits` yields: the entity number and the flags (each
/// MOREBITS flag announcing one more flag byte, unknown bits dropped), and
/// the state after.
pub open spec fn entity_bits_read(v: MsgView) -> ((i32, u32), MsgView) {
    let (b, v1) = byte_read(v);
    let (bits1, v2) = more_bits_read(v1, b as u32, U_MOREBITS1, 8u32);
    let (bits2, v3) = more_bits_read(v2, bits1, U_MOREBITS2, 16u32);
    let (bits3, v4) = more_bits_read(v3, bits2, U_MOREBITS3, 24u32);
    let flags = bits3 & U_ALL;
    let (number, v5) = if has(flags, U_NUMBER16) { short_read(v4) } else { byte_read(v4) };
    ((number, flags), v5)
}

fn more_bits_exec(msg: &mut NetMsg, bits: u32, more: u32, shift: u32) -> (r: u32)
    requires
        cursor_in_data(old(msg)@),
        shift < 32,
    ensures
        cursor_in_data(final(msg)@),
        (r, final(msg)@) == more_bits_read(old(msg)@, bits, more, shift),
{
    if bits & more != 0 {
        let x = msg.read_byte();
        bits | ((x as u32) << shift)
    } else {
        bits
    }
}

/// Read the flag bytes and the entity number that start an entity delta.
pub fn read_entity_bits(msg: &mut NetMsg) -> (r: (i32, u32))
    requires
        cursor_in_data(old(msg)@),
    ensures
        cursor_in_data(final(msg)@),
        (r, final(msg)@) == entity_bits_read(old(msg)@),
{
    let b = msg.read_byte();
    let bits1 = more_bits_exec(msg, b as u32, U_MOREBITS1, 8u32);
    let bits2 = more_bits_exec(msg, bits1, U_MOREBITS2, 16u32);
    let bits3 = more_bits_exec(msg, bits2, U_MOREBITS3, 24u32);
    let flags = bits3 & U_ALL;
    let number = if flags & U_NUMBER16 != 0 {
        msg.read_short()
    } else {
        msg.read_byte()
    };
    (number, flags)
}

fn opt_byte_exec(msg: &mut NetMsg, cond: bool) -> (r: Option<i32>)
    requires
        cursor_in_data(old(msg)@),
    ensures
        cursor_in_data(final(msg)@),
        final(msg)@.data == old(msg)@.data,
        old(msg)@.read_pos <= final(msg)@.read_pos,
        (r, final(msg)@) == opt_byte_read(old(msg)@, cond),
{
    if cond { Some(msg.read_byte()) } else { None }
}

fn opt_short_exec(msg: &mut NetMsg, cond: bool) -> (r: Option<i32>)
    requires
        cursor_in_data(old(msg)@),
    ensures
        cursor_in_data(final(msg)@),
        final(msg)@.data == old(msg)@.data,
        old(msg)@.read_pos <= final(msg)@.read_pos,
        (r, final(msg)@) == opt_short_read(old(msg)@, cond),
{
    if cond { Some(msg.read_short()) } else { None }
}

fn sized_exec(msg: &mut NetMsg, bits: u32, bit8: u32, bit16: u32) -> (r: Option<i32>)
    requires
        cursor_in_data(old(msg)@),
    ensures
        cursor_in_data(final(msg)@),
        final(msg)@.data == old(msg)@.data,
        old(msg)@.read_pos <= final(msg)@.read_pos,
        (r, final(msg)@) == sized_read(old(msg)@, bits, bit8, bit16),
{
    if bits & bit8 != 0 && bits & bit16 != 0 {
        Some(msg.read_long())
    } else if bits & bit8 != 0 {
        Some(msg.read_byte())
    } else if bits & bit16 != 0 {
        Some(msg.read_short())
    } else {
        None
    }
}

fn frame_exec(msg: &mut NetMsg, bits: u32) -> (r: Option<i32>)
    requires
        cursor_in_data(old(msg)@),
    ensures
        cursor_in_data(final(msg)@),
        final(msg)@.data == old(msg)@.data,
        old(msg)@.read_pos <= final(msg)@.read_pos,
        (r, final(msg)@) == frame_read(old(msg)@, bits),
{
    if bits & U_FRAME8 != 0 && bits & U_FRAME16 != 0 {
        Some(msg.read_short())
    } else if bits & U_FRAME8 != 0 {
        Some(msg.read_byte())
    } else if bits & U_FRAME16 != 0 {
        Some(msg.read_short())
    } else {
        None
    }
}

/// The old origin: three shorts when its flag is set.
pub open spec fn old_origin_read(v: MsgView, bits: u32) -> (Option<[i32; 3]>, MsgView) {
    if has(bits, U_OLDORIGIN) {
        let (x, v1) = short_read(v);
        let (y, v2) = short_read(v1);
        let (z, v3) = short_read(v2);
        (Some([x, y, z]), v3)
    } else {
        (None, v)
    }
}

fn old_origin_exec(msg: &mut NetMsg, bits: u32) -> (r: Option<[i32; 3]>)
    requires
        cursor_in_data(old(msg)@),
    ensures
        cursor_in_data(final(msg)@),
        final(msg)@.data == old(msg)@.data,
        old(msg)@.read_pos <= final(msg)@.read_pos,
        (r, final(msg)@) == old_origin_read(old(msg)@, bits),
{
    if bits & U_OLDORIGIN != 0 {
        let x = msg.read_short();
        let y = msg.read_short();
        let z = msg.read_short();
        Some([x, y, z])
    } else {
        None
    }
}

/// The first announced fields read: model indices, frame, skin, effects
/// (as read) and renderfx.
pub open spec fn fields_a_read(v: MsgView, bits: u32) -> (
    (Option<i32>, Option<i32>, Option<i32>, Option<i32>, Option<i32>, Option<i32>, Option<i32>, Option<i32>),
    MsgView,
) {
    let (m1, v) = opt_byte_read(v, has(bits, U_MODEL));
    let (m2, v) = opt_byte_read(v, has(bits, U_MODEL2));
    let (m3, v) = opt_byte_read(v, has(bits, U_MODEL3));
    let (m4, v) = opt_byte_read(v, has(bits, U_MODEL4));
    let (frame, v) = frame_read(v, bits);
    let (skin, v) = sized_read(v, bits, U_SKIN8, U_SKIN16);
    let (effects, v) = sized_read(v, bits, U_EFFECTS8, U_EFFECTS16);
    let (renderfx, v) = sized_read(v, bits, U_RENDERFX8, U_RENDERFX16);
    ((m1, m2, m3, m4, frame, skin, effects, renderfx), v)
}

/// The position fields read: origin and angles.
pub open spec fn fields_b_read(v: MsgView, bits: u32) -> (([Option<i32>; 3], [Option<i32>; 3]), MsgView) {
    let (o1, v) = opt_short_read(v, has(bits, U_ORIGIN1));
    let (o2, v) = opt_short_read(v, has(bits, U_ORIGIN2));
    let (o3, v) = opt_short_read(v, has(bits, U_ORIGIN3));
    let (a1, v) = opt_short_read(v, has(bits, U_ANGLE1));
    let (a2, v) = opt_short_read(v, has(bits, U_ANGLE2));
    let (a3, v) = opt_short_read(v, has(bits, U_ANGLE3));
    (([o1, o2, o3], [a1, a2, a3]), v)
}

/// The last fields read: old origin, sound, event (as read) and solid.
pub open spec fn fields_c_read(v: MsgView, bits: u32) -> ((Option<[i32; 3]>, Option<i32>, Option<i32>, Option<i32>), MsgView) {
    let (old_origin, v) = old_origin_read(v, bits);
    let (sound, v) = opt_byte_read(v, has(bits, U_SOUND));
    let (event, v) = opt_byte_read(v, has(bits, U_EVENT));
    let (solid, v) = opt_short_read(v, has(bits, U_SOLID));
    ((old_origin, sound, event, solid), v)
}

/// What `read_delta_entity` yields for the flags `bits`: each announced
/// field read in wire order, and the state after.
pub open spec fn entity_delta_read(v: MsgView, bits: u32) -> (EntityDeltaWire, MsgView) {
    let (a, v) = fields_a_read(v, bits);
    let (b, v) = fields_b_read(v, bits);
    let (c, v) = fields_c_read(v, bits);
    (
        EntityDeltaWire {
            modelindex: a.0,
            modelindex2: a.1,
            modelindex3: a.2,
            modelindex4: a.3,
            frame: a.4,
            skinnum: a.5,
            effects: match a.6 {
                Some(x) => Some(x as u32),
                None => None,
            },
            renderfx: a.7,
            origin: b.0,
            angles: b.1,
            old_origin: c.0,
            sound: c.1,
            event: match c.2 {
                Some(x) => x,
                None => 0,
            },
            solid: c.3,
        },
        v,
    )
}

fn read_fields_a(msg: &mut NetMsg, bits: u32) -> (r: (
    Option<i32>,
    Option<i32>,
    Option<i32>,
    Option<i32>,
    Option<i32>,
    Option<i32>,
    Option<i32>,
    Option<i32>,
))
    requires
        cursor_in_data(old(msg)@),
    ensures
        cursor_in_data(final(msg)@),
        final(msg)@.data == old(msg)@.data,
        old(msg)@.read_pos <= final(msg)@.read_pos,
        (r, final(msg)@) == fields_a_read(old(msg)@, bits),
{
    let m1 = opt_byte_exec(msg, bits & U_MODEL != 0);
    let m2 = opt_byte_exec(msg, bits & U_MODEL2 != 0);
    let m3 = opt_byte_exec(msg, bits & U_MODEL3 != 0);
    let m4 = opt_byte_exec(msg, bits & U_MODEL4 != 0);
    let frame = frame_exec(msg, bits);
    let skin = sized_exec(msg, bits, U_SKIN8, U_SKIN16);
    let effects = sized_exec(msg, bits, U_EFFECTS8, U_EFFECTS16);
    let renderfx = sized_exec(msg, bits, U_RENDERFX8, U_RENDERFX16);
    (m1, m2, m3, m4, frame, skin, effects, renderfx)
}

fn read_fields_b(msg: &mut NetMsg, bits: u32) -> (r: ([Option<i32>; 3], [Option<i32>; 3]))
    requires
        cursor_in_data(old(msg)@),
    ensures
        cursor_in_data(final(msg)@),
        final(msg)@.data == old(msg)@.data,
        old(msg)@.read_pos <= final(msg)@.read_pos,
        (r, final(msg)@) == fields_b_read(old(msg)@, bits),
{
    let o1 = opt_short_exec(msg, bits & U_ORIGIN1 != 0);
    let o2 = opt_short_exec(msg, bits & U_ORIGIN2 != 0);
    let o3 = opt_short_exec(msg, bits & U_ORIGIN3 != 0);
    let a1 = opt_short_exec(msg, bits & U_ANGLE1 != 0);
    let a2 = opt_short_exec(msg, bits & U_ANGLE2 != 0);
    let a3 = opt_short_exec(msg, bits & U_ANGLE3 != 0);
    ([o1, o2, o3], [a1, a2, a3])
}

fn read_fields_c(msg: &mut NetMsg, bits: u32) -> (r: (Option<[i32; 3]>, Option<i32>, Option<i32>, Option<i32>))
    requires
        cursor_in_data(old(msg)@),
    ensures
        cursor_in_data(final(msg)@),
        final(msg)@.data == old(msg)@.data,
        old(msg)@.read_pos <= final(msg)@.read_pos,
        (r, final(msg)@) == fields_c_read(old(msg)@, bits),
{
    let old_origin = old_origin_exec(msg, bits);
    let sound = opt_byte_exec(msg, bits & U_SOUND != 0);
    let event = opt_byte_exec(msg, bits & U_EVENT != 0);
    let solid = opt_short_exec(msg, bits & U_SOLID != 0);
    (old_origin, sound, event, solid)
}

/// Read the fields of an entity delta announced by `bits`.
pub fn read_delta_entity(msg: &mut NetMsg, bits: u32) -> (r: EntityDeltaWire)
    requires
        cursor_in_data(old(msg)@),
    ensures
        cursor_in_data(final(msg)@),
        final(msg)@.data == old(msg)@.data,
        old(msg)@.read_pos <= final(msg)@.read_pos,
        (r, final(msg)@) == entity_delta_read(old(msg)@, bits),
{
    let a = read_fields_a(msg, bits);
    let b = read_fields_b(msg, bits);
    let c = read_fields_c(msg, bits);
    EntityDeltaWire {
        modelindex: a.0,
        modelindex2: a.1,
        modelindex3: a.2,
        modelindex4: a.3,
        frame: a.4,
        skinnum: a.5,
        effects: match a.6 {
            Some(x) => Some(x as u32),
            None => None,
        },
        renderfx: a.7,
        origin: b.0,
        angles: b.1,
        old_origin: c.0,
        sound: c.1,
        event: match c.2 {
            Some(x) => x,
            None => 0,
        },
        solid: c.3,
    }
}

/// The value a delta carries, or `keep` when it carries none.
pub open spec fn or_keep(o: Option<i32>, keep: i32) -> i32 {
    match o {
        Some(x) => x,
        None => keep,
    }
}

fn or_keep_exec(o: Option<i32>, keep: i32) -> (r: i32)
    ensures
        r == or_keep(o, keep),
{
    match o {
        Some(x) => x,
        None => keep,
    }
}

/// The entity that a delta read for entity `number` gives on top of
/// `from`: the number given; the old origin from the delta, else `from`'s
/// origin; the event from the delta; each other field from the delta where
/// it carries one, else from `from`.
pub open spec fn entity_applied(from: EntityWire, number: i32, d: EntityDeltaWire) -> EntityWire {
    EntityWire {
        number,
        origin: [or_keep(d.origin[0], from.origin[0]), or_keep(d.origin[1], from.origin[1]), or_keep(d.origin[2], from.origin[2])],
        angles: [or_keep(d.angles[0], from.angles[0]), or_keep(d.angles[1], from.angles[1]), or_keep(d.angles[2], from.angles[2])],
        old_origin: match d.old_origin {
            Some(o) => o,
            None => from.origin,
        },
        modelindex: or_keep(d.modelindex, from.modelindex),
        modelindex2: or_keep(d.modelindex2, from.modelindex2),
        modelindex3: or_keep(d.modelindex3, from.modelindex3),
        modelindex4: or_keep(d.modelindex4, from.modelindex4),
        frame: or_keep(d.frame, from.frame),
        skinnum: or_keep(d.skinnum, from.skinnum),
        effects: match d.effects {
            Some(e) => e,
            None => from.effects,
        },
        renderfx: or_keep(d.renderfx, from.renderfx),
        solid: or_keep(d.solid, from.solid),
        sound: or_keep(d.sound, from.sound),
        event: d.event,
    }
}

/// Applying a delta keeps every field of the previous state that the delta
/// does not carry and takes every field it carries; the entity gets the
/// number given, the event of the delta, and as old origin the one carried
/// or else the previous origin.
pub proof fn law_apply_keeps_unsent(from: EntityWire, number: i32, d: EntityDeltaWire)
    ensures
        d.modelindex is None ==> entity_applied(from, number, d).modelindex == from.modelindex,
        d.modelindex matches Some(x) ==> entity_applied(from, number, d).modelindex == x,
        d.modelindex2 is None ==> entity_applied(from, number, d).modelindex2 == from.modelindex2,
        d.modelindex2 matches Some(x) ==> entity_applied(from, number, d).modelindex2 == x,
        d.modelindex3 is None ==> entity_applied(from, number, d).modelindex3 == from.modelindex3,
        d.modelindex3 matches Some(x) ==> entity_applied(from, number, d).modelindex3 == x,
        d.modelindex4 is None ==> entity_applied(from, number, d).modelindex4 == from.modelindex4,
        d.modelindex4 matches Some(x) ==> entity_applied(from, number, d).modelindex4 == x,
        d.frame is None ==> entity_applied(from, number, d).frame == from.frame,
        d.frame matches Some(x) ==> entity_applied(from, number, d).frame == x,
        d.skinnum is None ==> entity_applied(from, number, d).skinnum == from.skinnum,
        d.skinnum matches Some(x) ==> entity_applied(from, number, d).skinnum == x,
        d.renderfx is None ==> entity_applied(from, number, d).renderfx == from.renderfx,
        d.renderfx matches Some(x) ==> entity_applied(from, number, d).renderfx == x,
        d.solid is None ==> entity_applied(from, number, d).solid == from.solid,
        d.solid matches Some(x) ==> entity_applied(from, number, d).solid == x,
        d.sound is None ==> entity_applied(from, number, d).sound == from.sound,
        d.sound matches Some(x) ==> entity_applied(from, number, d).sound == x,
        d.effects is None ==> entity_applied(from, number, d).effects == from.effects,
        d.effects matches Some(x) ==> entity_applied(from, number, d).effects == x,
        d.origin[0] is None ==> entity_applied(from, number, d).origin[0] == from.origin[0],
        d.origin[0] matches Some(x) ==> entity_applied(from, number, d).origin[0] == x,
        d.angles[0] is None ==> entity_applied(from, number, d).angles[0] == from.angles[0],
        d.angles[0] matches Some(x) ==> entity_applied(from, number, d).angles[0] == x,
        d.origin[1] is None ==> entity_applied(from, number, d).origin[1] == from.origin[1],
        d.origin[1] matches Some(x) ==> entity_applied(from, number, d).origin[1] == x,
        d.angles[1] is None ==> entity_applied(from, number, d).angles[1] == from.angles[1],
        d.angles[1] matches Some(x) ==> entity_applied(from, number, d).angles[1] == x,
        d.origin[2] is None ==> entity_applied(from, number, d).origin[2] == from.origin[2],
        d.origin[2] matches Some(x) ==> entity_applied(from, number, d).origin[2] == x,
        d.angles[2] is None ==> entity_applied(from, number, d).angles[2] == from.angles[2],
        d.angles[2] matches Some(x) ==> entity_applied(from, number, d).angles[2] == x,
        d.old_origin is None ==> entity_applied(from, number, d).old_origin == from.origin,
        d.old_origin matches Some(o) ==> entity_applied(from, number, d).old_origin == o,
        entity_applied(from, number, d).number == number,
        entity_applied(from, number, d).event == d.event,

{
}

/// Apply the fields of a delta read for entity `number` on top of `from`.
pub fn apply_entity_delta(from: &EntityWire, number: i32, d: &EntityDeltaWire) -> (r: EntityWire)
    ensures
        r == entity_applied(*from, number, *d),
{
    EntityWire {
        number,
        origin: [
            or_keep_exec(d.origin[0], from.origin[0]),
            or_keep_exec(d.origin[1], from.origin[1]),
            or_keep_exec(d.origin[2], from.origin[2]),
        ],
        angles: [
            or_keep_exec(d.angles[0], from.angles[0]),
            or_keep_exec(d.angles[1], from.angles[1]),
            or_keep_exec(d.angles[2], from.angles[2]),
        ],
        old_origin: match d.old_origin {
            Some(o) => o,
            None => from.origin,
        },
        modelindex: or_keep_exec(d.modelindex, from.modelindex),
        modelindex2: or_keep_exec(d.modelindex2, from.modelindex2),
        modelindex3: or_keep_exec(d.modelindex3, from.modelindex3),
        modelindex4: or_keep_exec(d.modelindex4, from.modelindex4),
        frame: or_keep_exec(d.frame, from.frame),
        skinnum: or_keep_exec(d.skinnum, from.skinnum),
        effects: match d.effects {
            Some(e) => e,
            None => from.effects,
        },
        renderfx: or_keep_exec(d.renderfx, from.renderfx),
        solid: or_keep_exec(d.solid, from.solid),
        sound: or_keep_exec(d.sound, from.sound),
        event: d.event,
    }
}


} // verus!
verus! {

/// A flag byte as it is written: a value from 0 to 255 that stands for the
/// low byte of `x`.
proof fn lemma_flag_byte(x: u32)
    ensures
        0 <= ((x as i32) & 0xFF) <= 255,
        (((x as i32) & 0xFF) as u32) == x & 0xFF,
{
    assert(0 <= ((x as i32) & 0xFF) <= 255) by (bit_vector);
    assert((((x as i32) & 0xFF) as u32) == x & 0xFF) by (bit_vector);
}

/// The flags sent hold only meaningful bits, carry the 16-bit number flag
/// exactly for numbers from 256 on, and announce a flag byte above the
/// first exactly when it or a higher one is non-zero.
proof fn lemma_sent_bits(changed: u32, number: i32)
    requires
        changed & 0xF000_2000 == 0,
        changed & 0x0080_8180 == 0,
    ensures
        ({
            let bits = sent_flags(changed, number);
            &&& bits & 0xF000_2000 == 0
            &&& (bits & 0x80 != 0) == (bits & 0xFFFF_FF00 != 0)
            &&& (bits & 0x8000 != 0) == (bits & 0xFFFF_0000 != 0)
            &&& (bits & 0x80_0000 != 0) == (bits & 0xFF00_0000 != 0)
            &&& (bits & 0x100 != 0) == (number >= 256)
        }),
{
    reveal(add_if);
    let big = number >= 256;
    let f1 = add_if(changed, big, U_NUMBER16);
    let f2 = add_if(f1, f1 & 0xFF00_0000 != 0, U_MOREBITS3);
    let f3 = add_if(f2, f2 & 0x00FF_0000 != 0, U_MOREBITS2);
    let bits = add_if(f3, f3 & 0x0000_FF00 != 0, U_MOREBITS1);
    assert(bits == sent_flags(changed, number));
    assert({
        &&& bits & 0xF000_2000 == 0
        &&& (bits & 0x80 != 0) == (bits & 0xFFFF_FF00 != 0)
        &&& (bits & 0x8000 != 0) == (bits & 0xFFFF_0000 != 0)
        &&& (bits & 0x80_0000 != 0) == (bits & 0xFF00_0000 != 0)
        &&& (bits & 0x100 != 0) == big
    }) by (bit_vector)
        requires
            changed & 0xF000_2000 == 0,
            changed & 0x0080_8180 == 0,
            f1 == if big { changed | 0x100u32 } else { changed },
            f2 == if f1 & 0xFF00_0000u32 != 0 { f1 | 0x80_0000u32 } else { f1 },
            f3 == if f2 & 0x00FF_0000u32 != 0 { f2 | 0x8000u32 } else { f2 },
            bits == if f3 & 0x0000_FF00u32 != 0 { f3 | 0x80u32 } else { f3 },
    ;
}

/// The flag bytes put back together give the flags.
proof fn lemma_reassemble(bits: u32)
    requires
        bits & 0xF000_2000 == 0,
        (bits & 0x80 != 0) == (bits & 0xFFFF_FF00 != 0),
        (bits & 0x8000 != 0) == (bits & 0xFFFF_0000 != 0),
        (bits & 0x80_0000 != 0) == (bits & 0xFF00_0000 != 0),
    ensures
        ({
            let r0 = bits & 0xFF;
            let r1 = if r0 & 0x80 != 0 { r0 | (((bits >> 8u32) & 0xFF) << 8u32) } else { r0 };
            let r2 = if r1 & 0x8000 != 0 { r1 | (((bits >> 16u32) & 0xFF) << 16u32) } else { r1 };
            let r3 = if r2 & 0x80_0000 != 0 { r2 | (((bits >> 24u32) & 0xFF) << 24u32) } else { r2 };
            &&& r3 & 0x0FFF_DFFF == bits
            &&& (r0 & 0x80 != 0) == (bits & 0x80 != 0)
            &&& (r1 & 0x8000 != 0) == (bits & 0x8000 != 0)
            &&& (r2 & 0x80_0000 != 0) == (bits & 0x80_0000 != 0)
        }),
{
    assert({
        let r0 = bits & 0xFF;
        let r1 = if r0 & 0x80 != 0 { r0 | (((bits >> 8u32) & 0xFF) << 8u32) } else { r0 };
        let r2 = if r1 & 0x8000 != 0 { r1 | (((bits >> 16u32) & 0xFF) << 16u32) } else { r1 };
        let r3 = if r2 & 0x80_0000 != 0 { r2 | (((bits >> 24u32) & 0xFF) << 24u32) } else { r2 };
        &&& r3 & 0x0FFF_DFFF == bits
        &&& (r0 & 0x80 != 0) == (bits & 0x80 != 0)
        &&& (r1 & 0x8000 != 0) == (bits & 0x8000 != 0)
        &&& (r2 & 0x80_0000 != 0) == (bits & 0x80_0000 != 0)
    }) by (bit_vector)
        requires
            bits & 0xF000_2000 == 0,
            (bits & 0x80 != 0) == (bits & 0xFFFF_FF00 != 0),
            (bits & 0x8000 != 0) == (bits & 0xFFFF_0000 != 0),
            (bits & 0x80_0000 != 0) == (bits & 0xFF00_0000 != 0),
    ;
}

/// Reading back the flag bytes and the number that start an entity delta
/// gives the number and the flags that were sent (for entity numbers below
/// 32768, and flags of changed fields only).
pub proof fn law_entity_bits_roundtrip(v: MsgView, changed: u32, number: i32)
    requires
        changed & 0xF000_2000 == 0,
        changed & 0x0080_8180 == 0,
        0 <= number < 32768,
        at_cursor(v, header_bytes(sent_flags(changed, number), number)),
    ensures
        entity_bits_read(v) == (
            (number, sent_flags(changed, number)),
            advanced(v, header_bytes(sent_flags(changed, number), number).len()),
        ),
{
    let bits = sent_flags(changed, number);
    lemma_sent_bits(changed, number);
    lemma_reassemble(bits);
    reveal(header_bytes);
    let c0 = (bits as i32) & 0xFF;
    let c1 = ((bits >> 8u32) as i32) & 0xFF;
    let c2 = ((bits >> 16u32) as i32) & 0xFF;
    let c3 = ((bits >> 24u32) as i32) & 0xFF;
    lemma_flag_byte(bits);
    lemma_flag_byte(bits >> 8u32);
    lemma_flag_byte(bits >> 16u32);
    lemma_flag_byte(bits >> 24u32);
    let b0 = byte_of(c0);
    let o1 = opt(has(bits, U_MOREBITS1), byte_of(c1));
    let o2 = opt(has(bits, U_MOREBITS2), byte_of(c2));
    let o3 = opt(has(bits, U_MOREBITS3), byte_of(c3));
    let nb = if has(bits, U_NUMBER16) { short_bytes(number) } else { byte_of(number) };
    assert(header_bytes(bits, number) == b0 + o1 + o2 + o3 + nb);
    lemma_at_cursor_split(v, b0 + o1 + o2 + o3, nb);
    lemma_at_cursor_split(v, b0 + o1 + o2, o3);
    lemma_at_cursor_split(v, b0 + o1, o2);
    lemma_at_cursor_split(v, b0, o1);
    law_byte_roundtrip(v, c0);
    let v1 = advanced(v, 1);
    let r0 = bits & 0xFF;
    assert(c0 as u32 == r0);
    let v2 = advanced(v1, o1.len());
    let r1 = if r0 & 0x80 != 0 { r0 | (((bits >> 8u32) & 0xFF) << 8u32) } else { r0 };
    if has(bits, U_MOREBITS1) {
        law_byte_roundtrip(v1, c1);
    }
    assert(more_bits_read(v1, r0, U_MOREBITS1, 8u32) == (r1, v2));
    let v3 = advanced(v2, o2.len());
    let r2 = if r1 & 0x8000 != 0 { r1 | (((bits >> 16u32) & 0xFF) << 16u32) } else { r1 };
    if has(bits, U_MOREBITS2) {
        law_byte_roundtrip(v2, c2);
    }
    assert(more_bits_read(v2, r1, U_MOREBITS2, 16u32) == (r2, v3));
    let v4 = advanced(v3, o3.len());
    let r3 = if r2 & 0x80_0000 != 0 { r2 | (((bits >> 24u32) & 0xFF) << 24u32) } else { r2 };
    if has(bits, U_MOREBITS3) {
        law_byte_roundtrip(v3, c3);
    }
    assert(more_bits_read(v3, r2, U_MOREBITS3, 24u32) == (r3, v4));
    assert(r3 & U_ALL == bits);
    if has(bits, U_NUMBER16) {
        law_short_roundtrip(v4, number);
    } else {
        law_byte_roundtrip(v4, number);
    }
}

/// The field flags never hold the number, MOREBITS or unused bits; once
/// sent (the flags `w`, built from the field flags `c` step by step), each
/// field flag is set exactly when its condition holds, and the removal
/// flag is not.
proof fn lemma_flag_word(
    o0: bool, o1: bool, o2: bool, a0: bool, a1: bool, a2: bool,
    sk: bool, sks: bool, fr: bool, frs: bool, ef: bool, efs: bool, rf: bool, rfs: bool,
    so: bool, ev: bool, m1: bool, m2: bool, m3: bool, m4: bool, snd: bool, oo: bool, big: bool,
    c: u32, n1: u32, n2: u32, n3: u32, w: u32,
)
    by (bit_vector)
    requires
        c == field_word(o0, o1, o2, a0, a1, a2, sk, sks, fr, frs, ef, efs, rf, rfs, so, ev, m1, m2, m3, m4, snd, oo),
        n1 == if big { c | U_NUMBER16 } else { c },
        n2 == if n1 & 0xFF00_0000u32 != 0 { n1 | U_MOREBITS3 } else { n1 },
        n3 == if n2 & 0x00FF_0000u32 != 0 { n2 | U_MOREBITS2 } else { n2 },
        w == if n3 & 0x0000_FF00u32 != 0 { n3 | U_MOREBITS1 } else { n3 },
    ensures
        c & 0xF080_A180u32 == 0,
        (w & U_ORIGIN1 != 0) == o0,
        (w & U_ORIGIN2 != 0) == o1,
        (w & U_ORIGIN3 != 0) == o2,
        (w & U_ANGLE1 != 0) == a0,
        (w & U_ANGLE2 != 0) == a1,
        (w & U_ANGLE3 != 0) == a2,
        (w & U_SKIN8 != 0) == sk,
        (w & U_SKIN16 != 0) == (sk && !sks),
        (w & U_FRAME8 != 0) == fr,
        (w & U_FRAME16 != 0) == (fr && !frs),
        (w & U_EFFECTS8 != 0) == ef,
        (w & U_EFFECTS16 != 0) == (ef && !efs),
        (w & U_RENDERFX8 != 0) == rf,
        (w & U_RENDERFX16 != 0) == (rf && !rfs),
        (w & U_SOLID != 0) == so,
        (w & U_EVENT != 0) == ev,
        (w & U_MODEL != 0) == m1,
        (w & U_MODEL2 != 0) == m2,
        (w & U_MODEL3 != 0) == m3,
        (w & U_MODEL4 != 0) == m4,
        (w & U_SOUND != 0) == snd,
        (w & U_OLDORIGIN != 0) == oo,
        (w & U_REMOVE != 0) == false,
{
}

/// The flags of changed fields never hold the number, MOREBITS or unused
/// bits.
proof fn lemma_changed_flags_bits(from: EntityWire, to: EntityWire, ch: FloatChanges, newentity: bool)
    ensures
        changed_flags(from, to, ch, newentity) & 0xF000_2000 == 0,
        changed_flags(from, to, ch, newentity) & 0x0080_8180 == 0,
{
    let c = changed_flags(from, to, ch, newentity);
    lemma_sent_flags_match(from, to, ch, newentity);
    assert(c & 0xF000_2000 == 0 && c & 0x0080_8180 == 0) by (bit_vector)
        requires
            c & 0xF080_A180 == 0,
    ;
}

/// Reading the start of what `write_delta_entity` wrote gives back the
/// entity's number and the flags sent, for entity numbers below 32768.
pub proof fn law_entity_delta_header_roundtrip(
    v: MsgView,
    from: EntityWire,
    to: EntityWire,
    ch: FloatChanges,
    force: bool,
    newentity: bool,
)
    requires
        0 <= to.number < 32768,
        changed_flags(from, to, ch, newentity) != 0 || force,
        at_cursor(v, entity_delta_bytes(from, to, ch, force, newentity)),
    ensures
        entity_bits_read(v).0 == (to.number, sent_flags(changed_flags(from, to, ch, newentity), to.number)),
{
    let changed = changed_flags(from, to, ch, newentity);
    let bits = sent_flags(changed, to.number);
    lemma_changed_flags_bits(from, to, ch, newentity);
    let h = header_bytes(bits, to.number);
    let rest = field_bytes_a(bits, to) + field_bytes_b(bits, to) + field_bytes_c(bits, to);
    vstd::seq_lib::lemma_concat_associative(h, field_bytes_a(bits, to) + field_bytes_b(bits, to), field_bytes_c(bits, to));
    vstd::seq_lib::lemma_concat_associative(h, field_bytes_a(bits, to), field_bytes_b(bits, to));
    assert(entity_delta_bytes(from, to, ch, force, newentity) == h + rest);
    lemma_at_cursor_split(v, h, rest);
    law_entity_bits_roundtrip(v, changed, to.number);
}

/// Which field flags the flags `bits` hold: each exactly when its field
/// changed (a 16-bit width flag when the new value is 256 or more).
pub open spec fn flags_match(bits: u32, from: EntityWire, to: EntityWire, ch: FloatChanges, newentity: bool) -> bool {
    &&& has(bits, U_ORIGIN1) == (ch.origin[0])
    &&& has(bits, U_ORIGIN2) == (ch.origin[1])
    &&& has(bits, U_ORIGIN3) == (ch.origin[2])
    &&& has(bits, U_ANGLE1) == (ch.angles[0])
    &&& has(bits, U_ANGLE2) == (ch.angles[1])
    &&& has(bits, U_ANGLE3) == (ch.angles[2])
    &&& has(bits, U_SKIN8) == (to.skinnum != from.skinnum)
    &&& has(bits, U_SKIN16) == (to.skinnum != from.skinnum && !(to.skinnum < 256))
    &&& has(bits, U_FRAME8) == (to.frame != from.frame)
    &&& has(bits, U_FRAME16) == (to.frame != from.frame && !(to.frame < 256))
    &&& has(bits, U_EFFECTS8) == (to.effects != from.effects)
    &&& has(bits, U_EFFECTS16) == (to.effects != from.effects && !(to.effects < 256))
    &&& has(bits, U_RENDERFX8) == (to.renderfx != from.renderfx)
    &&& has(bits, U_RENDERFX16) == (to.renderfx != from.renderfx && !(to.renderfx < 256))
    &&& has(bits, U_SOLID) == (to.solid != from.solid)
    &&& has(bits, U_EVENT) == (to.event != from.event)
    &&& has(bits, U_MODEL) == (to.modelindex != from.modelindex)
    &&& has(bits, U_MODEL2) == (to.modelindex2 != from.modelindex2)
    &&& has(bits, U_MODEL3) == (to.modelindex3 != from.modelindex3)
    &&& has(bits, U_MODEL4) == (to.modelindex4 != from.modelindex4)
    &&& has(bits, U_SOUND) == (to.sound != from.sound)
    &&& has(bits, U_OLDORIGIN) == (ch.old_origin || newentity)
}

/// The flags that `write_delta_entity` sends announce exactly the fields
/// that changed, and never a removal.
#[verifier::spinoff_prover]
#[verifier::rlimit(100)]
pub proof fn lemma_sent_flags_match(from: EntityWire, to: EntityWire, ch: FloatChanges, newentity: bool)
    ensures
        flags_match(sent_flags(changed_flags(from, to, ch, newentity), to.number), from, to, ch, newentity),
        has(sent_flags(changed_flags(from, to, ch, newentity), to.number), U_REMOVE) == false,
        changed_flags(from, to, ch, newentity) & 0xF080_A180u32 == 0,
{
    let c = changed_flags(from, to, ch, newentity);
    let big = to.number >= 256;
    let n1 = add_if(c, big, U_NUMBER16);
    let n2 = add_if(n1, n1 & 0xFF00_0000 != 0, U_MOREBITS3);
    let n3 = add_if(n2, n2 & 0x00FF_0000 != 0, U_MOREBITS2);
    let w = add_if(n3, n3 & 0x0000_FF00 != 0, U_MOREBITS1);
    assert(w == sent_flags(c, to.number));
    reveal(add_if);
    lemma_flag_word(
        ch.origin[0],
        ch.origin[1],
        ch.origin[2],
        ch.angles[0],
        ch.angles[1],
        ch.angles[2],
        to.skinnum != from.skinnum,
        to.skinnum < 256,
        to.frame != from.frame,
        to.frame < 256,
        to.effects != from.effects,
        to.effects < 256,
        to.renderfx != from.renderfx,
        to.renderfx < 256,
        to.solid != from.solid,
        to.event != from.event,
        to.modelindex != from.modelindex,
        to.modelindex2 != from.modelindex2,
        to.modelindex3 != from.modelindex3,
        to.modelindex4 != from.modelindex4,
        to.sound != from.sound,
        ch.old_origin || newentity,
        big,
        c,
        n1,
        n2,
        n3,
        w,
    );
    assert(flags_match(w, from, to, ch, newentity));
}

/// A value read back where `opt(c, byte_of(x))` was written.
proof fn lemma_opt_byte_back(w: MsgView, c: bool, x: i32)
    requires
        at_cursor(w, opt(c, byte_of(x))),
        c ==> 0 <= x <= 255,
    ensures
        opt_byte_read(w, c) == (if c { Some(x) } else { None::<i32> }, advanced(w, opt(c, byte_of(x)).len())),
{
    if c {
        law_byte_roundtrip(w, x);
    } else {
        assert(advanced(w, 0) == w);
    }
}

/// A value read back where `opt(c, short_bytes(x))` was written.
proof fn lemma_opt_short_back(w: MsgView, c: bool, x: i32)
    requires
        at_cursor(w, opt(c, short_bytes(x))),
        c ==> -32768 <= x <= 32767,
    ensures
        opt_short_read(w, c) == (if c { Some(x) } else { None::<i32> }, advanced(w, opt(c, short_bytes(x)).len())),
{
    if c {
        law_short_roundtrip(w, x);
    } else {
        assert(advanced(w, 0) == w);
    }
}

/// A value read back at the width its flags give.
proof fn lemma_sized_back(w: MsgView, bits: u32, b8: u32, b16: u32, x: i32)
    requires
        at_cursor(w, sized_bytes(bits, b8, b16, x)),
        has(bits, b16) ==> has(bits, b8),
        has(bits, b8) && !(has(bits, b16)) ==> 0 <= x <= 255,
    ensures
        sized_read(w, bits, b8, b16) == (
            if has(bits, b8) { Some(x) } else { None::<i32> },
            advanced(w, sized_bytes(bits, b8, b16, x).len()),
        ),
{
    if has(bits, b8) {
        if has(bits, b16) {
            law_long_roundtrip(w, x);
        } else {
            law_byte_roundtrip(w, x);
        }
    } else {
        assert(advanced(w, 0) == w);
    }
}

/// The bytes written for the frame.
pub open spec fn frame_bytes(bits: u32, frame: i32) -> Seq<u8> {
    if has(bits, U_FRAME8) {
        if has(bits, U_FRAME16) { short_bytes(frame) } else { byte_of(frame) }
    } else {
        Seq::empty()
    }
}

proof fn lemma_frame_back(w: MsgView, bits: u32, x: i32)
    requires
        at_cursor(w, frame_bytes(bits, x)),
        has(bits, U_FRAME16) ==> has(bits, U_FRAME8),
        has(bits, U_FRAME8) && !(has(bits, U_FRAME16)) ==> 0 <= x <= 255,
        has(bits, U_FRAME8) && has(bits, U_FRAME16) ==> -32768 <= x <= 32767,
    ensures
        frame_read(w, bits) == (if has(bits, U_FRAME8) { Some(x) } else { None::<i32> }, advanced(w, frame_bytes(bits, x).len())),
{
    if has(bits, U_FRAME8) {
        if has(bits, U_FRAME16) {
            law_short_roundtrip(w, x);
        } else {
            law_byte_roundtrip(w, x);
        }
    } else {
        assert(advanced(w, 0) == w);
    }
}

/// An optional value as read: the value when its flag was set.
pub open spec fn sent(c: bool, x: i32) -> Option<i32> {
    if c { Some(x) } else { None }
}

/// The width flags of the first fields are consistent (a 16-bit flag only
/// with its 8-bit flag) and each value fits the width it is sent at.
pub open spec fn fields_a_fit(bits: u32, to: EntityWire) -> bool {
    &&& has(bits, U_MODEL) ==> 0 <= to.modelindex <= 255
    &&& has(bits, U_MODEL2) ==> 0 <= to.modelindex2 <= 255
    &&& has(bits, U_MODEL3) ==> 0 <= to.modelindex3 <= 255
    &&& has(bits, U_MODEL4) ==> 0 <= to.modelindex4 <= 255
    &&& has(bits, U_FRAME16) ==> has(bits, U_FRAME8)
    &&& has(bits, U_FRAME8) && !(has(bits, U_FRAME16)) ==> 0 <= to.frame <= 255
    &&& has(bits, U_FRAME8) && has(bits, U_FRAME16) ==> -32768 <= to.frame <= 32767
    &&& has(bits, U_SKIN16) ==> has(bits, U_SKIN8)
    &&& has(bits, U_SKIN8) && !(has(bits, U_SKIN16)) ==> 0 <= to.skinnum <= 255
    &&& has(bits, U_EFFECTS16) ==> has(bits, U_EFFECTS8)
    &&& has(bits, U_EFFECTS8) && !(has(bits, U_EFFECTS16)) ==> to.effects <= 255
    &&& has(bits, U_RENDERFX16) ==> has(bits, U_RENDERFX8)
    &&& has(bits, U_RENDERFX8) && !(has(bits, U_RENDERFX16)) ==> 0 <= to.renderfx <= 255
}

/// Reading the first fields where they were written gives each sent
/// value back.
#[verifier::spinoff_prover]
#[verifier::rlimit(100)]
pub proof fn law_fields_a_back(w: MsgView, bits: u32, to: EntityWire)
    requires
        at_cursor(w, field_bytes_a(bits, to)),
        fields_a_fit(bits, to),
    ensures
        fields_a_read(w, bits) == (
            (
                sent(has(bits, U_MODEL), to.modelindex),
                sent(has(bits, U_MODEL2), to.modelindex2),
                sent(has(bits, U_MODEL3), to.modelindex3),
                sent(has(bits, U_MODEL4), to.modelindex4),
                sent(has(bits, U_FRAME8), to.frame),
                sent(has(bits, U_SKIN8), to.skinnum),
                sent(has(bits, U_EFFECTS8), to.effects as i32),
                sent(has(bits, U_RENDERFX8), to.renderfx),
            ),
            advanced(w, field_bytes_a(bits, to).len()),
        ),
{
    reveal(field_bytes_a);
    let s1 = opt(has(bits, U_MODEL), byte_of(to.modelindex));
    let s2 = opt(has(bits, U_MODEL2), byte_of(to.modelindex2));
    let s3 = opt(has(bits, U_MODEL3), byte_of(to.modelindex3));
    let s4 = opt(has(bits, U_MODEL4), byte_of(to.modelindex4));
    let s5 = frame_bytes(bits, to.frame);
    let s6 = sized_bytes(bits, U_SKIN8, U_SKIN16, to.skinnum);
    let s7 = sized_bytes(bits, U_EFFECTS8, U_EFFECTS16, to.effects as i32);
    let s8 = sized_bytes(bits, U_RENDERFX8, U_RENDERFX16, to.renderfx);
    let p1 = s1;
    let p2 = p1 + s2;
    let p3 = p2 + s3;
    let p4 = p3 + s4;
    let p5 = p4 + s5;
    let p6 = p5 + s6;
    let p7 = p6 + s7;
    assert(field_bytes_a(bits, to) == p7 + s8);
    lemma_at_cursor_split(w, p7, s8);
    lemma_at_cursor_split(w, p6, s7);
    lemma_at_cursor_split(w, p5, s6);
    lemma_at_cursor_split(w, p4, s5);
    lemma_at_cursor_split(w, p3, s4);
    lemma_at_cursor_split(w, p2, s3);
    lemma_at_cursor_split(w, p1, s2);
    if has(bits, U_EFFECTS8) && !(has(bits, U_EFFECTS16)) {
        let e = to.effects;
        assert(e <= 255 ==> 0 <= (e as i32) <= 255) by (bit_vector);
    }
    lemma_opt_byte_back(w, has(bits, U_MODEL), to.modelindex);
    lemma_opt_byte_back(advanced(w, p1.len()), has(bits, U_MODEL2), to.modelindex2);
    lemma_opt_byte_back(advanced(w, p2.len()), has(bits, U_MODEL3), to.modelindex3);
    lemma_opt_byte_back(advanced(w, p3.len()), has(bits, U_MODEL4), to.modelindex4);
    lemma_frame_back(advanced(w, p4.len()), bits, to.frame);
    lemma_sized_back(advanced(w, p5.len()), bits, U_SKIN8, U_SKIN16, to.skinnum);
    lemma_sized_back(advanced(w, p6.len()), bits, U_EFFECTS8, U_EFFECTS16, to.effects as i32);
    lemma_sized_back(advanced(w, p7.len()), bits, U_RENDERFX8, U_RENDERFX16, to.renderfx);
}

/// Reading the position fields where they were written gives each sent
/// value back.
#[verifier::rlimit(60)]
pub proof fn law_fields_b_back(w: MsgView, bits: u32, to: EntityWire)
    requires
        at_cursor(w, field_bytes_b(bits, to)),
        forall|k: int| 0 <= k < 3 ==> -32768 <= #[trigger] to.origin[k] <= 32767,
        forall|k: int| 0 <= k < 3 ==> -32768 <= #[trigger] to.angles[k] <= 32767,
    ensures
        fields_b_read(w, bits) == (
            (
                [
                    sent(has(bits, U_ORIGIN1), to.origin[0]),
                    sent(has(bits, U_ORIGIN2), to.origin[1]),
                    sent(has(bits, U_ORIGIN3), to.origin[2]),
                ],
                [
                    sent(has(bits, U_ANGLE1), to.angles[0]),
                    sent(has(bits, U_ANGLE2), to.angles[1]),
                    sent(has(bits, U_ANGLE3), to.angles[2]),
                ],
            ),
            advanced(w, field_bytes_b(bits, to).len()),
        ),
{
    reveal(field_bytes_b);
    let s1 = opt(has(bits, U_ORIGIN1), short_bytes(to.origin[0]));
    let s2 = opt(has(bits, U_ORIGIN2), short_bytes(to.origin[1]));
    let s3 = opt(has(bits, U_ORIGIN3), short_bytes(to.origin[2]));
    let s4 = opt(has(bits, U_ANGLE1), short_bytes(to.angles[0]));
    let s5 = opt(has(bits, U_ANGLE2), short_bytes(to.angles[1]));
    let s6 = opt(has(bits, U_ANGLE3), short_bytes(to.angles[2]));
    let p1 = s1;
    let p2 = p1 + s2;
    let p3 = p2 + s3;
    let p4 = p3 + s4;
    let p5 = p4 + s5;
    assert(field_bytes_b(bits, to) == p5 + s6);
    lemma_at_cursor_split(w, p5, s6);
    lemma_at_cursor_split(w, p4, s5);
    lemma_at_cursor_split(w, p3, s4);
    lemma_at_cursor_split(w, p2, s3);
    lemma_at_cursor_split(w, p1, s2);
    assert(-32768 <= to.origin[0] <= 32767);
    assert(-32768 <= to.origin[1] <= 32767);
    assert(-32768 <= to.origin[2] <= 32767);
    assert(-32768 <= to.angles[0] <= 32767);
    assert(-32768 <= to.angles[1] <= 32767);
    assert(-32768 <= to.angles[2] <= 32767);
    lemma_opt_short_back(w, has(bits, U_ORIGIN1), to.origin[0]);
    lemma_opt_short_back(advanced(w, p1.len()), has(bits, U_ORIGIN2), to.origin[1]);
    lemma_opt_short_back(advanced(w, p2.len()), has(bits, U_ORIGIN3), to.origin[2]);
    lemma_opt_short_back(advanced(w, p3.len()), has(bits, U_ANGLE1), to.angles[0]);
    lemma_opt_short_back(advanced(w, p4.len()), has(bits, U_ANGLE2), to.angles[1]);
    lemma_opt_short_back(advanced(w, p5.len()), has(bits, U_ANGLE3), to.angles[2]);
}

/// Reading the last fields where they were written gives each sent value
/// back.
#[verifier::rlimit(60)]
pub proof fn law_fields_c_back(w: MsgView, bits: u32, to: EntityWire)
    requires
        at_cursor(w, field_bytes_c(bits, to)),
        forall|k: int| 0 <= k < 3 ==> -32768 <= #[trigger] to.old_origin[k] <= 32767,
        has(bits, U_SOUND) ==> 0 <= to.sound <= 255,
        has(bits, U_EVENT) ==> 0 <= to.event <= 255,
        has(bits, U_SOLID) ==> -32768 <= to.solid <= 32767,
    ensures
        fields_c_read(w, bits) == (
            (
                if has(bits, U_OLDORIGIN) { Some(to.old_origin) } else { None::<[i32; 3]> },
                sent(has(bits, U_SOUND), to.sound),
                sent(has(bits, U_EVENT), to.event),
                sent(has(bits, U_SOLID), to.solid),
            ),
            advanced(w, field_bytes_c(bits, to).len()),
        ),
{
    reveal(field_bytes_c);
    let o0 = short_bytes(to.old_origin[0]);
    let o1 = short_bytes(to.old_origin[1]);
    let o2 = short_bytes(to.old_origin[2]);
    let s1 = opt(has(bits, U_OLDORIGIN), o0 + o1 + o2);
    let s2 = opt(has(bits, U_SOUND), byte_of(to.sound));
    let s3 = opt(has(bits, U_EVENT), byte_of(to.event));
    let s4 = opt(has(bits, U_SOLID), short_bytes(to.solid));
    let p2 = s1 + s2;
    let p3 = p2 + s3;
    assert(field_bytes_c(bits, to) == p3 + s4);
    lemma_at_cursor_split(w, p3, s4);
    lemma_at_cursor_split(w, p2, s3);
    lemma_at_cursor_split(w, s1, s2);
    assert(-32768 <= to.old_origin[0] <= 32767);
    assert(-32768 <= to.old_origin[1] <= 32767);
    assert(-32768 <= to.old_origin[2] <= 32767);
    if has(bits, U_OLDORIGIN) {
        lemma_at_cursor_split(w, o0 + o1, o2);
        lemma_at_cursor_split(w, o0, o1);
        law_short_roundtrip(w, to.old_origin[0]);
        law_short_roundtrip(advanced(w, 2), to.old_origin[1]);
        law_short_roundtrip(advanced(w, 4), to.old_origin[2]);
        assert(old_origin_read(w, bits) == (Some(to.old_origin), advanced(w, 6)));
    } else {
        assert(advanced(w, 0) == w);
    }
    lemma_opt_byte_back(advanced(w, s1.len()), has(bits, U_SOUND), to.sound);
    lemma_opt_byte_back(advanced(w, p2.len()), has(bits, U_EVENT), to.event);
    lemma_opt_short_back(advanced(w, p3.len()), has(bits, U_SOLID), to.solid);
}

/// The fields of an entity fit the widths they travel at: model indices,
/// sound and event as bytes, the frame as a byte or a short, skin and
/// renderfx as a byte or a long (so not negative), coordinates, angles and
/// solid as shorts.
pub open spec fn entity_fits(e: EntityWire) -> bool {
    &&& 0 <= e.modelindex <= 255
    &&& 0 <= e.modelindex2 <= 255
    &&& 0 <= e.modelindex3 <= 255
    &&& 0 <= e.modelindex4 <= 255
    &&& 0 <= e.frame <= 32767
    &&& 0 <= e.skinnum
    &&& 0 <= e.renderfx
    &&& 0 <= e.sound <= 255
    &&& 0 <= e.event <= 255
    &&& -32768 <= e.solid <= 32767
    &&& forall|k: int| 0 <= k < 3 ==> -32768 <= #[trigger] e.origin[k] <= 32767
    &&& forall|k: int| 0 <= k < 3 ==> -32768 <= #[trigger] e.angles[k] <= 32767
    &&& forall|k: int| 0 <= k < 3 ==> -32768 <= #[trigger] e.old_origin[k] <= 32767
}

/// `ch` tells the truth about the coordinates and angles: a component said
/// unchanged is equal in both states.
pub open spec fn changes_agree(from: EntityWire, to: EntityWire, ch: FloatChanges) -> bool {
    &&& !ch.origin[0] ==> to.origin[0] == from.origin[0]
    &&& !ch.origin[1] ==> to.origin[1] == from.origin[1]
    &&& !ch.origin[2] ==> to.origin[2] == from.origin[2]
    &&& !ch.angles[0] ==> to.angles[0] == from.angles[0]
    &&& !ch.angles[1] ==> to.angles[1] == from.angles[1]
    &&& !ch.angles[2] ==> to.angles[2] == from.angles[2]
}

/// Reading what `write_delta_entity` wrote for `from` -> `to` and applying
/// it on `from` gives `to` back, with the cursor right after the bytes.
/// This holds when the fields fit their widths, `ch` tells the truth, the
/// entity number is below 32768, and two things the format cannot carry
/// do not occur: an old origin other than `from`'s origin that is not
/// sent, and an unchanged event other than 0 (events are not kept).
#[verifier::spinoff_prover]
#[verifier::rlimit(100)]
pub proof fn law_entity_delta_roundtrip(
    v: MsgView,
    from: EntityWire,
    to: EntityWire,
    ch: FloatChanges,
    force: bool,
    newentity: bool,
)
    requires
        0 <= to.number < 32768,
        changed_flags(from, to, ch, newentity) != 0 || force,
        at_cursor(v, entity_delta_bytes(from, to, ch, force, newentity)),
        entity_fits(to),
        changes_agree(from, to, ch),
        ch.old_origin || newentity || to.old_origin == from.origin,
        to.event != from.event || to.event == 0,
    ensures
        ({
            let ((num, bits), v1) = entity_bits_read(v);
            let (d, v2) = entity_delta_read(v1, bits);
            &&& num == to.number
            &&& has(bits, U_REMOVE) == false
            &&& entity_applied(from, num, d) == to
            &&& v2 == advanced(v, entity_delta_bytes(from, to, ch, force, newentity).len())
            &&& v1.data == v.data
            &&& v.read_pos <= v1.read_pos <= v2.read_pos
        }),
{
    let changed = changed_flags(from, to, ch, newentity);
    let bits = sent_flags(changed, to.number);
    lemma_sent_flags_match(from, to, ch, newentity);
    lemma_changed_flags_bits(from, to, ch, newentity);
    let h = header_bytes(bits, to.number);
    let fa = field_bytes_a(bits, to);
    let fb = field_bytes_b(bits, to);
    let fc = field_bytes_c(bits, to);
    vstd::seq_lib::lemma_concat_associative(h, fa + fb, fc);
    vstd::seq_lib::lemma_concat_associative(h, fa, fb);
    assert(entity_delta_bytes(from, to, ch, force, newentity) == h + (fa + fb + fc));
    lemma_at_cursor_split(v, h, fa + fb + fc);
    law_entity_bits_roundtrip(v, changed, to.number);
    let v1 = advanced(v, h.len());
    lemma_at_cursor_split(v1, fa + fb, fc);
    lemma_at_cursor_split(v1, fa, fb);
    assert(fields_a_fit(bits, to));
    law_fields_a_back(v1, bits, to);
    let v2 = advanced(v1, fa.len());
    law_fields_b_back(v2, bits, to);
    let v3 = advanced(v2, fb.len());
    law_fields_c_back(v3, bits, to);
    let (d, w) = entity_delta_read(v1, bits);
    let e = to.effects;
    assert((e as i32) as u32 == e) by (bit_vector);
    let r = entity_applied(from, to.number, d);
    assert(r.origin =~= to.origin);
    assert(r.angles =~= to.angles);
    assert(r == to);
}

proof fn lemma_no_field_word()
    by (bit_vector)
    ensures
        field_word(
            false, false, false, false, false, false, false, false, false, false, false, false, false, false, false,
            false, false, false, false, false, false, false,
        ) == 0,
{
}

/// An entity that did not change, with no floating-point change, is not
/// written at all unless forced or new; a forced or changed entity always
/// writes at least its flag byte and its number.
pub proof fn law_unchanged_entity_writes_nothing(
    from: EntityWire,
    to: EntityWire,
    ch: FloatChanges,
    force: bool,
    newentity: bool,
)
    ensures
        (to == from && ch == (FloatChanges { origin: [false, false, false], angles: [false, false, false], old_origin: false })
            && !newentity && !force) ==> entity_delta_bytes(from, to, ch, force, newentity).len() == 0,
        (force || changed_flags(from, to, ch, newentity) != 0) ==> entity_delta_bytes(from, to, ch, force, newentity).len()
            >= 2,
{
    lemma_no_field_word();
    reveal(header_bytes);
}

/// Events last one frame: an entry that does not carry the event reads it
/// as 0.
pub proof fn law_event_not_kept(v: MsgView, bits: u32)
    ensures
        !(has(bits, U_EVENT)) ==> entity_delta_read(v, bits).0.event == 0,
{
}

} // verus!
