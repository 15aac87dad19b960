//! Player input commands and their delta compression on the wire.
//!
//! A command is sent as a flag byte naming the fields that differ from the
//! previous command, then msec and light level (always), then each changed
//! field in a fixed order.

use vstd::prelude::*;
use crate::net_msg::{
    advanced, at_cursor, byte_read, cursor_in_data, lemma_at_cursor_split, law_byte_roundtrip,
    law_short_roundtrip, short_bytes, short_read, MsgView, NetMsg,
};

verus! {

/// One frame of player input.
#[derive(Clone, Copy, Debug, Default, PartialEq, Eq)]
pub struct UserCmd {
    pub msec: u8,
    pub buttons: u8,
    pub angles: [i16; 3],
    pub forwardmove: i16,
    pub sidemove: i16,
    pub upmove: i16,
    pub impulse: u8,
    pub lightlevel: u8,
}

/// The fields of a command as mathematical values.
pub struct UserCmdView {
    pub msec: u8,
    pub buttons: u8,
    pub angles: Seq<i16>,
    pub forwardmove: i16,
    pub sidemove: i16,
    pub upmove: i16,
    pub impulse: u8,
    pub lightlevel: u8,
}

impl View for UserCmd {
    type V = UserCmdView;

    open spec fn view(&self) -> UserCmdView {
        UserCmdView {
            msec: self.msec,
            buttons: self.buttons,
            angles: self.angles@,
            forwardmove: self.forwardmove,
            sidemove: self.sidemove,
            upmove: self.upmove,
            impulse: self.impulse,
            lightlevel: self.lightlevel,
        }
    }
}

pub const CM_ANGLE1: u8 = 1;
pub const CM_ANGLE2: u8 = 2;
pub const CM_ANGLE3: u8 = 4;
pub const CM_FORWARD: u8 = 8;
pub const CM_SIDE: u8 = 16;
pub const CM_UP: u8 = 32;
pub const CM_BUTTONS: u8 = 64;
pub const CM_IMPULSE: u8 = 128;

/// `mask` if `changed`, else 0.
pub open spec fn flag(changed: bool, mask: u8) -> u8 {
    if changed { mask } else { 0u8 }
}

/// The flag byte: one bit for each field of `to` that differs from `from`.
pub open spec fn delta_bits(from: UserCmdView, to: UserCmdView) -> u8 {
    flag(to.angles[0] != from.angles[0], CM_ANGLE1) | flag(to.angles[1] != from.angles[1], CM_ANGLE2)
        | flag(to.angles[2] != from.angles[2], CM_ANGLE3) | flag(
        to.forwardmove != from.forwardmove,
        CM_FORWARD,
    ) | flag(to.sidemove != from.sidemove, CM_SIDE) | flag(to.upmove != from.upmove, CM_UP) | flag(
        to.buttons != from.buttons,
        CM_BUTTONS,
    ) | flag(to.impulse != from.impulse, CM_IMPULSE)
}

/// The bytes of a 16-bit field when its bit is set.
#[verifier::opaque]
pub open spec fn opt_short(set: bool, x: i16) -> Seq<u8> {
    if set { short_bytes(x as i32) } else { Seq::empty() }
}

/// The byte of an 8-bit field when its bit is set.
#[verifier::opaque]
pub open spec fn opt_byte(set: bool, x: u8) -> Seq<u8> {
    if set { seq![x] } else { Seq::empty() }
}

/// The bytes that `write_delta_usercmd` appends.
pub open spec fn delta_usercmd_bytes(from: UserCmdView, to: UserCmdView) -> Seq<u8> {
    seq![delta_bits(from, to), to.msec, to.lightlevel] + opt_short(
        to.angles[0] != from.angles[0],
        to.angles[0],
    ) + opt_short(to.angles[1] != from.angles[1], to.angles[1]) + opt_short(
        to.angles[2] != from.angles[2],
        to.angles[2],
    ) + opt_short(to.forwardmove != from.forwardmove, to.forwardmove) + opt_short(
        to.sidemove != from.sidemove,
        to.sidemove,
    ) + opt_short(to.upmove != from.upmove, to.upmove) + opt_byte(
        to.buttons != from.buttons,
        to.buttons,
    ) + opt_byte(to.impulse != from.impulse, to.impulse)
}

/// Reading a 16-bit field whose bit is `set`; otherwise `keep` stays.
pub open spec fn field_short_read(set: bool, v: MsgView, keep: i16) -> (i16, MsgView) {
    if set {
        (short_read(v).0 as i16, short_read(v).1)
    } else {
        (keep, v)
    }
}

/// Reading an 8-bit field whose bit is `set`; otherwise `keep` stays.
pub open spec fn field_byte_read(set: bool, v: MsgView, keep: u8) -> (u8, MsgView) {
    if set {
        (byte_read(v).0 as u8, byte_read(v).1)
    } else {
        (keep, v)
    }
}

/// What `read_delta_usercmd` yields from state `v` against the base
/// command `from`, and the state after it.
pub open spec fn delta_usercmd_read(v: MsgView, from: UserCmdView) -> (UserCmdView, MsgView) {
    let (b, v1) = byte_read(v);
    let bits = b as u8;
    let (m, v2) = byte_read(v1);
    let (l, v3) = byte_read(v2);
    let (a0, v4) = field_short_read(bits & CM_ANGLE1 != 0, v3, from.angles[0]);
    let (a1, v5) = field_short_read(bits & CM_ANGLE2 != 0, v4, from.angles[1]);
    let (a2, v6) = field_short_read(bits & CM_ANGLE3 != 0, v5, from.angles[2]);
    let (fw, v7) = field_short_read(bits & CM_FORWARD != 0, v6, from.forwardmove);
    let (sd, v8) = field_short_read(bits & CM_SIDE != 0, v7, from.sidemove);
    let (up, v9) = field_short_read(bits & CM_UP != 0, v8, from.upmove);
    let (bt, v10) = field_byte_read(bits & CM_BUTTONS != 0, v9, from.buttons);
    let (im, v11) = field_byte_read(bits & CM_IMPULSE != 0, v10, from.impulse);
    (
        UserCmdView {
            msec: m as u8,
            buttons: bt,
            angles: seq![a0, a1, a2],
            forwardmove: fw,
            sidemove: sd,
            upmove: up,
            impulse: im,
            lightlevel: l as u8,
        },
        v11,
    )
}

/// Each bit of the flag byte says exactly whether its field changed.
pub proof fn lemma_delta_bits(
    a1: bool,
    a2: bool,
    a3: bool,
    f: bool,
    s: bool,
    u: bool,
    b: bool,
    i: bool,
)
    ensures
        ({
            let bits = flag(a1, 1) | flag(a2, 2) | flag(a3, 4) | flag(f, 8) | flag(s, 16) | flag(
                u,
                32,
            ) | flag(b, 64) | flag(i, 128);
            &&& (bits & 1 != 0) == a1
            &&& (bits & 2 != 0) == a2
            &&& (bits & 4 != 0) == a3
            &&& (bits & 8 != 0) == f
            &&& (bits & 16 != 0) == s
            &&& (bits & 32 != 0) == u
            &&& (bits & 64 != 0) == b
            &&& (bits & 128 != 0) == i
        }),
{
    let x1 = flag(a1, 1);
    let x2 = flag(a2, 2);
    let x3 = flag(a3, 4);
    let x4 = flag(f, 8);
    let x5 = flag(s, 16);
    let x6 = flag(u, 32);
    let x7 = flag(b, 64);
    let x8 = flag(i, 128);
    assert({
        let bits = x1 | x2 | x3 | x4 | x5 | x6 | x7 | x8;
        &&& (bits & 1 != 0) == (x1 != 0)
        &&& (bits & 2 != 0) == (x2 != 0)
        &&& (bits & 4 != 0) == (x3 != 0)
        &&& (bits & 8 != 0) == (x4 != 0)
        &&& (bits & 16 != 0) == (x5 != 0)
        &&& (bits & 32 != 0) == (x6 != 0)
        &&& (bits & 64 != 0) == (x7 != 0)
        &&& (bits & 128 != 0) == (x8 != 0)
    }) by (bit_vector)
        requires
            x1 == 0 || x1 == 1,
            x2 == 0 || x2 == 2,
            x3 == 0 || x3 == 4,
            x4 == 0 || x4 == 8,
            x5 == 0 || x5 == 16,
            x6 == 0 || x6 == 32,
            x7 == 0 || x7 == 64,
            x8 == 0 || x8 == 128,
    ;
}

/// `mask` if `changed`, else 0.
fn flag_of(changed: bool, mask: u8) -> (r: u8)
    ensures
        r == flag(changed, mask),
{
    if changed { mask } else { 0 }
}

impl NetMsg {
    /// Append a 16-bit field when its bit is set.
    fn write_opt_short(&mut self, set: bool, x: i16)
        requires
            cursor_in_data(old(self)@),
        ensures
            final(self)@ == (MsgView { data: old(self)@.data + opt_short(set, x), ..old(self)@ }),
    {
        reveal(opt_short);
        if set {
            self.write_short(x as i32);
        } else {
            assert(old(self)@.data + opt_short(set, x) =~= old(self)@.data);
        }
    }

    /// Append an 8-bit field when its bit is set.
    fn write_opt_byte(&mut self, set: bool, x: u8)
        requires
            cursor_in_data(old(self)@),
        ensures
            final(self)@ == (MsgView { data: old(self)@.data + opt_byte(set, x), ..old(self)@ }),
    {
        reveal(opt_byte);
        if set {
            self.write_byte(x as i32);
            assert(old(self)@.data.push(x) =~= old(self)@.data + opt_byte(set, x));
        } else {
            assert(old(self)@.data + opt_byte(set, x) =~= old(self)@.data);
        }
    }

    /// Read a 16-bit field when its bit is set; otherwise keep `keep`.
    fn read_opt_short(&mut self, set: bool, keep: i16) -> (r: i16)
        requires
            cursor_in_data(old(self)@),
        ensures
            (r, final(self)@) == field_short_read(set, old(self)@, keep),
            cursor_in_data(final(self)@),
    {
        if set {
            self.read_short() as i16
        } else {
            keep
        }
    }

    /// Read an 8-bit field when its bit is set; otherwise keep `keep`.
    fn read_opt_byte(&mut self, set: bool, keep: u8) -> (r: u8)
        requires
            cursor_in_data(old(self)@),
        ensures
            (r, final(self)@) == field_byte_read(set, old(self)@, keep),
            cursor_in_data(final(self)@),
    {
        if set {
            self.read_byte() as u8
        } else {
            keep
        }
    }

    /// Append a delta-compressed command: the flag byte, msec and light
    /// level, then each field of `to` that differs from `from`.
    #[verifier::rlimit(50)]
    pub fn write_delta_usercmd(&mut self, from: &UserCmd, to: &UserCmd)
        requires
            cursor_in_data(old(self)@),
        ensures
            final(self)@ == (MsgView {
                data: old(self)@.data + delta_usercmd_bytes(from@, to@),
                ..old(self)@
            }),
    {
        let c0 = to.angles[0] != from.angles[0];
        let c1 = to.angles[1] != from.angles[1];
        let c2 = to.angles[2] != from.angles[2];
        let cf = to.forwardmove != from.forwardmove;
        let cs = to.sidemove != from.sidemove;
        let cu = to.upmove != from.upmove;
        let cb = to.buttons != from.buttons;
        let ci = to.impulse != from.impulse;
        let bits = flag_of(c0, CM_ANGLE1) | flag_of(c1, CM_ANGLE2) | flag_of(c2, CM_ANGLE3) | flag_of(
            cf,
            CM_FORWARD,
        ) | flag_of(cs, CM_SIDE) | flag_of(cu, CM_UP) | flag_of(cb, CM_BUTTONS) | flag_of(
            ci,
            CM_IMPULSE,
        );
        self.write_byte(bits as i32);
        self.write_byte(to.msec as i32);
        self.write_byte(to.lightlevel as i32);
        let ghost head = old(self)@.data + seq![bits, to.msec, to.lightlevel];
        assert(self@.data =~= head);
        let ghost o = old(self)@.data;
        let ghost e0 = seq![bits, to.msec, to.lightlevel];
        self.write_opt_short(c0, to.angles[0]);
        let ghost e1 = e0 + opt_short(c0, to.angles[0]);
        proof {
            vstd::seq_lib::lemma_concat_associative(o, e0, opt_short(c0, to.angles[0]));
        }
        self.write_opt_short(c1, to.angles[1]);
        let ghost e2 = e1 + opt_short(c1, to.angles[1]);
        proof {
            vstd::seq_lib::lemma_concat_associative(o, e1, opt_short(c1, to.angles[1]));
        }
        self.write_opt_short(c2, to.angles[2]);
        let ghost e3 = e2 + opt_short(c2, to.angles[2]);
        proof {
            vstd::seq_lib::lemma_concat_associative(o, e2, opt_short(c2, to.angles[2]));
        }
        self.write_opt_short(cf, to.forwardmove);
        let ghost e4 = e3 + opt_short(cf, to.forwardmove);
        proof {
            vstd::seq_lib::lemma_concat_associative(o, e3, opt_short(cf, to.forwardmove));
        }
        self.write_opt_short(cs, to.sidemove);
        let ghost e5 = e4 + opt_short(cs, to.sidemove);
        proof {
            vstd::seq_lib::lemma_concat_associative(o, e4, opt_short(cs, to.sidemove));
        }
        self.write_opt_short(cu, to.upmove);
        let ghost e6 = e5 + opt_short(cu, to.upmove);
        proof {
            vstd::seq_lib::lemma_concat_associative(o, e5, opt_short(cu, to.upmove));
        }
        self.write_opt_byte(cb, to.buttons);
        let ghost e7 = e6 + opt_byte(cb, to.buttons);
        proof {
            vstd::seq_lib::lemma_concat_associative(o, e6, opt_byte(cb, to.buttons));
        }
        self.write_opt_byte(ci, to.impulse);
        let ghost e8 = e7 + opt_byte(ci, to.impulse);
        proof {
            vstd::seq_lib::lemma_concat_associative(o, e7, opt_byte(ci, to.impulse));
        }
        assert(bits == delta_bits(from@, to@));
        assert(e8 == delta_usercmd_bytes(from@, to@));
    }

    /// Read a delta-compressed command against the base command `from`:
    /// fields whose bit is clear keep their value from `from`.
    pub fn read_delta_usercmd(&mut self, from: &UserCmd) -> (r: UserCmd)
        requires
            cursor_in_data(old(self)@),
        ensures
            (r@, final(self)@) == delta_usercmd_read(old(self)@, from@),
    {
        let mut cmd = *from;
        let bits = self.read_byte() as u8;
        cmd.msec = self.read_byte() as u8;
        cmd.lightlevel = self.read_byte() as u8;
        cmd.angles[0] = self.read_opt_short(bits & CM_ANGLE1 != 0, from.angles[0]);
        cmd.angles[1] = self.read_opt_short(bits & CM_ANGLE2 != 0, from.angles[1]);
        cmd.angles[2] = self.read_opt_short(bits & CM_ANGLE3 != 0, from.angles[2]);
        cmd.forwardmove = self.read_opt_short(bits & CM_FORWARD != 0, from.forwardmove);
        cmd.sidemove = self.read_opt_short(bits & CM_SIDE != 0, from.sidemove);
        cmd.upmove = self.read_opt_short(bits & CM_UP != 0, from.upmove);
        cmd.buttons = self.read_opt_byte(bits & CM_BUTTONS != 0, from.buttons);
        cmd.impulse = self.read_opt_byte(bits & CM_IMPULSE != 0, from.impulse);
        assert(cmd@.angles =~= delta_usercmd_read(old(self)@, from@).0.angles);
        cmd
    }
}

} // verus!

verus! {

/// Reading an optional 16-bit field gives back what was written for it.
pub proof fn lemma_opt_short_roundtrip(w: MsgView, set: bool, x: i16, keep: i16)
    requires
        at_cursor(w, opt_short(set, x)),
    ensures
        field_short_read(set, w, keep) == (if set { x } else { keep }, advanced(
            w,
            opt_short(set, x).len(),
        )),
{
    reveal(opt_short);
    if set {
        law_short_roundtrip(w, x as i32);
    } else {
        assert(advanced(w, 0) == w);
    }
}

/// Reading an optional 8-bit field gives back what was written for it.
pub proof fn lemma_opt_byte_roundtrip(w: MsgView, set: bool, x: u8, keep: u8)
    requires
        at_cursor(w, opt_byte(set, x)),
    ensures
        field_byte_read(set, w, keep) == (if set { x } else { keep }, advanced(
            w,
            opt_byte(set, x).len(),
        )),
{
    reveal(opt_byte);
    if set {
        law_byte_roundtrip(w, x as i32);
    } else {
        assert(advanced(w, 0) == w);
    }
}

/// Reading a delta-compressed command against the same base command gives
/// back exactly the command that was written, and moves the cursor past it.
#[verifier::spinoff_prover]
#[verifier::rlimit(40)]
pub proof fn law_delta_usercmd_roundtrip(v: MsgView, from: UserCmd, to: UserCmd)
    requires
        at_cursor(v, delta_usercmd_bytes(from@, to@)),
    ensures
        delta_usercmd_read(v, from@) == (to@, advanced(
            v,
            delta_usercmd_bytes(from@, to@).len(),
        )),
{
    let f = from@;
    let t = to@;
    let c0 = t.angles[0] != f.angles[0];
    let c1 = t.angles[1] != f.angles[1];
    let c2 = t.angles[2] != f.angles[2];
    let cf = t.forwardmove != f.forwardmove;
    let cs = t.sidemove != f.sidemove;
    let cu = t.upmove != f.upmove;
    let cb = t.buttons != f.buttons;
    let ci = t.impulse != f.impulse;
    lemma_delta_bits(c0, c1, c2, cf, cs, cu, cb, ci);
    let bits = delta_bits(f, t);
    let o1 = opt_short(c0, t.angles[0]);
    let o2 = opt_short(c1, t.angles[1]);
    let o3 = opt_short(c2, t.angles[2]);
    let o4 = opt_short(cf, t.forwardmove);
    let o5 = opt_short(cs, t.sidemove);
    let o6 = opt_short(cu, t.upmove);
    let o7 = opt_byte(cb, t.buttons);
    let o8 = opt_byte(ci, t.impulse);
    let e0 = seq![bits, t.msec, t.lightlevel];
    let e1 = e0 + o1;
    let e2 = e1 + o2;
    let e3 = e2 + o3;
    let e4 = e3 + o4;
    let e5 = e4 + o5;
    let e6 = e5 + o6;
    let e7 = e6 + o7;
    let e8 = e7 + o8;
    assert(e8 == delta_usercmd_bytes(f, t));
    lemma_at_cursor_split(v, e7, o8);
    lemma_at_cursor_split(v, e6, o7);
    lemma_at_cursor_split(v, e5, o6);
    lemma_at_cursor_split(v, e4, o5);
    lemma_at_cursor_split(v, e3, o4);
    lemma_at_cursor_split(v, e2, o3);
    lemma_at_cursor_split(v, e1, o2);
    lemma_at_cursor_split(v, e0, o1);
    let p = v.read_pos as int;
    assert(v.data[p] == e0[0]);
    assert(v.data[p + 1] == e0[1]);
    assert(v.data[p + 2] == e0[2]);
    let v3 = advanced(v, 3);
    assert(byte_read(v).1 == advanced(v, 1));
    assert(byte_read(advanced(v, 1)).1 == advanced(v, 2));
    assert(byte_read(advanced(v, 2)).1 == v3);
    lemma_opt_short_roundtrip(v3, c0, t.angles[0], f.angles[0]);
    lemma_opt_short_roundtrip(advanced(v, e1.len()), c1, t.angles[1], f.angles[1]);
    lemma_opt_short_roundtrip(advanced(v, e2.len()), c2, t.angles[2], f.angles[2]);
    lemma_opt_short_roundtrip(advanced(v, e3.len()), cf, t.forwardmove, f.forwardmove);
    lemma_opt_short_roundtrip(advanced(v, e4.len()), cs, t.sidemove, f.sidemove);
    lemma_opt_short_roundtrip(advanced(v, e5.len()), cu, t.upmove, f.upmove);
    lemma_opt_byte_roundtrip(advanced(v, e6.len()), cb, t.buttons, f.buttons);
    lemma_opt_byte_roundtrip(advanced(v, e7.len()), ci, t.impulse, f.impulse);
    let r = delta_usercmd_read(v, f).0;
    assert(r.angles =~= t.angles);
}

} // verus!
