//! One frame of the server's stream on the client: its header, the area
//! bits, the player state and the entity list, each read against the frame
//! it is delta-compressed from, and the ring of recent frames it is kept in.

use vstd::prelude::*;
use crate::delta::EntityWire;
use crate::net_msg::{byte_read, cursor_in_data, long_read, MsgView, NetMsg};
use crate::packet_entities::{entities_read, read_packet_entities, SVC_PACKETENTITIES};
use crate::player_delta::{
    apply_player_delta, player_applied, player_state_read, read_player_state, PlayerDeltaWire, PlayerWire, PmType,
    MAX_STATS, SVC_PLAYERINFO,
};

verus! {

/// How many recent frames the ring keeps.
pub const UPDATE_BACKUP: usize = 16;

/// Area bits kept per frame (one bit per map area).
pub const MAX_AREABITS: usize = 32;

/// A frame as the client keeps it.
pub struct ClientFrame {
    pub valid: bool,
    pub serverframe: i32,
    /// The server time in milliseconds: the frame number times 100.
    pub servertime: i64,
    pub deltaframe: i32,
    pub areabits: Vec<u8>,
    pub playerstate: PlayerWire,
    pub entities: Vec<EntityWire>,
}

/// A frame as a value.
pub struct FrameView {
    pub valid: bool,
    pub serverframe: i32,
    pub servertime: int,
    pub deltaframe: i32,
    pub areabits: Seq<u8>,
    pub playerstate: PlayerWire,
    pub entities: Seq<EntityWire>,
}

impl View for ClientFrame {
    type V = FrameView;

    open spec fn view(&self) -> FrameView {
        FrameView {
            valid: self.valid,
            serverframe: self.serverframe,
            servertime: self.servertime as int,
            deltaframe: self.deltaframe,
            areabits: self.areabits@,
            playerstate: self.playerstate,
            entities: self.entities@,
        }
    }
}

/// The empty player state.
pub open spec fn zero_player() -> PlayerWire {
    PlayerWire {
        pm_type: PmType::Normal,
        origin: [0, 0, 0],
        velocity: [0, 0, 0],
        pm_time: 0,
        pm_flags: 0,
        gravity: 0,
        delta_angles: [0, 0, 0],
        viewoffset: [0, 0, 0],
        viewangles: [0, 0, 0],
        kick_angles: [0, 0, 0],
        gunindex: 0,
        gunframe: 0,
        gunoffset: [0, 0, 0],
        gunangles: [0, 0, 0],
        blend: [0, 0, 0, 0],
        fov: 0,
        rdflags: 0,
        stats: [0, 0, 0, 0, 0, 0, 0, 0, 0, 0, 0, 0, 0, 0, 0, 0, 0, 0, 0, 0, 0, 0, 0, 0, 0, 0, 0, 0, 0, 0, 0, 0],
    }
}

fn zero_player_exec() -> (r: PlayerWire)
    ensures
        r == zero_player(),
{
    PlayerWire {
        pm_type: PmType::Normal,
        origin: [0, 0, 0],
        velocity: [0, 0, 0],
        pm_time: 0,
        pm_flags: 0,
        gravity: 0,
        delta_angles: [0, 0, 0],
        viewoffset: [0, 0, 0],
        viewangles: [0, 0, 0],
        kick_angles: [0, 0, 0],
        gunindex: 0,
        gunframe: 0,
        gunoffset: [0, 0, 0],
        gunangles: [0, 0, 0],
        blend: [0, 0, 0, 0],
        fov: 0,
        rdflags: 0,
        stats: [0, 0, 0, 0, 0, 0, 0, 0, 0, 0, 0, 0, 0, 0, 0, 0, 0, 0, 0, 0, 0, 0, 0, 0, 0, 0, 0, 0, 0, 0, 0, 0],
    }
}

/// The player state that a delta gives on top of `base`, with each stat
/// slot that was sent set to its value.
pub open spec fn player_from(p: PlayerWire, base: PlayerWire, d: PlayerDeltaWire, stats: Seq<Option<i16>>) -> bool {
    &&& p == (PlayerWire { stats: p.stats, ..player_applied(base, d, stats) })
    &&& forall|i: int|
        0 <= i < MAX_STATS ==> p.stats[i] == match stats[i] {
            Some(x) => x,
            None => base.stats[i],
        }
}

/// The slot of the ring that frame `n` goes to.
pub open spec fn ring_slot(n: i32) -> int {
    (n & 15) as int
}

/// The number of area bytes a frame carries: the count sent, at most
/// `MAX_AREABITS` (a count that could not be read counts as the most).
pub open spec fn areabits_len(n: i32) -> int {
    if 0 <= n <= MAX_AREABITS { n as int } else { MAX_AREABITS as int }
}

/// How a frame message ended.
#[derive(Debug, Clone, Copy, PartialEq, Eq)]
pub enum FrameOutcome {
    /// The frame was read and stored.
    Stored,
    /// The player state did not follow the area bits; this opcode came
    /// instead, and nothing was stored.
    NoPlayerInfo(i32),
    /// The entity list did not follow the player state; this opcode came
    /// instead, and nothing was stored.
    NoPacketEntities(i32),
}

/// The recent frames, by slot, and the frame last read.
pub struct FrameRing {
    pub frames: Vec<ClientFrame>,
    pub frame: ClientFrame,
}

impl FrameRing {
    /// The ring holds one frame per slot.
    pub open spec fn wf(&self) -> bool {
        self.frames@.len() == UPDATE_BACKUP
    }

    /// The frame in the slot of `deltaframe` when it is that frame and
    /// valid: the frame a new one is delta-compressed from.
    pub open spec fn delta_source(&self, deltaframe: i32) -> Option<FrameView> {
        if deltaframe > 0 && self.frames@[ring_slot(deltaframe)].serverframe == deltaframe
            && self.frames@[ring_slot(deltaframe)].valid {
            Some(self.frames@[ring_slot(deltaframe)]@)
        } else {
            None
        }
    }
}

/// An empty frame.
pub open spec fn empty_frame() -> FrameView {
    FrameView {
        valid: false,
        serverframe: 0,
        servertime: 0,
        deltaframe: 0,
        areabits: Seq::new(MAX_AREABITS as nat, |i: int| 0u8),
        playerstate: zero_player(),
        entities: Seq::empty(),
    }
}

fn empty_frame_exec() -> (r: ClientFrame)
    ensures
        r@ == empty_frame(),
{
    let mut areabits: Vec<u8> = Vec::new();
    let mut i: usize = 0;
    while i < MAX_AREABITS
        invariant
            i <= MAX_AREABITS,
            areabits@ == Seq::new(i as nat, |j: int| 0u8),
        decreases MAX_AREABITS - i,
    {
        areabits.push(0);
        i = i + 1;
        assert(areabits@ =~= Seq::new(i as nat, |j: int| 0u8));
    }
    ClientFrame {
        valid: false,
        serverframe: 0,
        servertime: 0,
        deltaframe: 0,
        areabits,
        playerstate: zero_player_exec(),
        entities: Vec::new(),
    }
}

fn copy_frame(f: &ClientFrame) -> (r: ClientFrame)
    ensures
        r@ == f@,
{
    let mut areabits: Vec<u8> = Vec::new();
    let mut i: usize = 0;
    while i < f.areabits.len()
        invariant
            i <= f.areabits@.len(),
            areabits@ == f.areabits@.subrange(0, i as int),
        decreases f.areabits@.len() - i,
    {
        areabits.push(f.areabits[i]);
        i = i + 1;
        assert(areabits@ =~= f.areabits@.subrange(0, i as int));
    }
    let mut entities: Vec<EntityWire> = Vec::new();
    let mut k: usize = 0;
    while k < f.entities.len()
        invariant
            k <= f.entities@.len(),
            entities@ == f.entities@.subrange(0, k as int),
        decreases f.entities@.len() - k,
    {
        entities.push(f.entities[k]);
        k = k + 1;
        assert(entities@ =~= f.entities@.subrange(0, k as int));
    }
    assert(areabits@ =~= f.areabits@);
    assert(entities@ =~= f.entities@);
    ClientFrame {
        valid: f.valid,
        serverframe: f.serverframe,
        servertime: f.servertime,
        deltaframe: f.deltaframe,
        areabits,
        playerstate: f.playerstate,
        entities,
    }
}

impl FrameRing {
    /// A ring of empty frames.
    pub fn new() -> (r: Self)
        ensures
            r.wf(),
            forall|i: int| 0 <= i < UPDATE_BACKUP ==> r.frames@[i]@ == empty_frame(),
            r.frame@ == empty_frame(),
    {
        let mut frames: Vec<ClientFrame> = Vec::new();
        let mut i: usize = 0;
        while i < UPDATE_BACKUP
            invariant
                i <= UPDATE_BACKUP,
                frames@.len() == i,
                forall|j: int| 0 <= j < i ==> frames@[j]@ == empty_frame(),
            decreases UPDATE_BACKUP - i,
        {
            frames.push(empty_frame_exec());
            i = i + 1;
        }
        FrameRing { frames, frame: empty_frame_exec() }
    }
}

/// The area bytes that a frame read from `v` carries, `n` of them sent:
/// those found, zeros for any past the end, and zeros up to
/// `MAX_AREABITS`.
pub open spec fn areabits_read(v: MsgView, n: int) -> (Seq<u8>, MsgView) {
    let avail = v.data.len() - v.read_pos;
    let k = if n <= avail { n } else { avail };
    (
        v.data.subrange(v.read_pos as int, v.read_pos + k) + Seq::new((MAX_AREABITS - k) as nat, |i: int| 0u8),
        MsgView { read_pos: (v.read_pos + k) as nat, overflowed: v.overflowed || n > avail, data: v.data },
    )
}

/// What reading a frame message (after its opcode) from `v` does with the
/// ring `ring` and the baselines: the frame number, the frame it is
/// delta-compressed from, a suppress byte, the area bits; then the player
/// state, which must start with its opcode, read against the old frame's
/// player state (the empty one without an old frame); then the entity
/// list, which must start with its opcode, read against the old frame's
/// entities (none without one). A frame whose old frame is missing is
/// still read and stored, marked invalid. `r` is the outcome, `next` the
/// ring after and `w` the message state after.
pub open spec fn frame_step(
    ring: FrameRing,
    v: MsgView,
    baselines: Seq<EntityWire>,
    r: FrameOutcome,
    next: FrameRing,
    w: MsgView,
) -> bool {
    let (serverframe, v1) = long_read(v);
    let (deltaframe, v2) = long_read(v1);
    let (_suppress, v3) = byte_read(v2);
    let (count, v4) = byte_read(v3);
    let (areabits, v5) = areabits_read(v4, areabits_len(count));
    let old = ring.delta_source(deltaframe);
    let (ps, v6) = byte_read(v5);
    let (d, stats, v7) = player_state_read(v6);
    let (pe, v8) = byte_read(v7);
    let (ents, v9) = entities_read(
        v8,
        match old { Some(f) => f.entities, None => Seq::empty() },
        0,
        baselines,
        Seq::empty(),
    );
    if ps != SVC_PLAYERINFO {
        &&& r == FrameOutcome::NoPlayerInfo(ps)
        &&& next == ring
        &&& w == v6
    } else if pe != SVC_PACKETENTITIES {
        &&& r == FrameOutcome::NoPacketEntities(pe)
        &&& next == ring
        &&& w == v8
    } else {
        let f = next.frame@;
        &&& r == FrameOutcome::Stored
        &&& w == v9
        &&& f.valid == (deltaframe <= 0 || old is Some)
        &&& f.serverframe == serverframe
        &&& f.servertime == serverframe * 100
        &&& f.deltaframe == deltaframe
        &&& f.areabits == areabits
        &&& player_from(f.playerstate, match old { Some(o) => o.playerstate, None => zero_player() }, d, stats)
        &&& f.entities == ents
        &&& next.frames@.len() == ring.frames@.len()
        &&& next.frames@[ring_slot(serverframe)]@ == f
        &&& forall|i: int| 0 <= i < ring.frames@.len() && i != ring_slot(serverframe) ==> next.frames@[i] == ring.frames@[i]
    }
}

fn read_areabits(msg: &mut NetMsg, count: i32) -> (r: Vec<u8>)
    requires
        cursor_in_data(old(msg)@),
    ensures
        cursor_in_data(final(msg)@),
        (r@, final(msg)@) == areabits_read(old(msg)@, areabits_len(count)),
{
    let n: usize = if 0 <= count && count <= 32 { count as usize } else { MAX_AREABITS };
    let ghost v = msg@;
    let mut buf: Vec<u8> = Vec::new();
    let mut i: usize = 0;
    while i < n
        invariant
            i <= n,
            buf@ == Seq::new(i as nat, |j: int| 0u8),
        decreases n - i,
    {
        buf.push(0);
        i = i + 1;
        assert(buf@ =~= Seq::new(i as nat, |j: int| 0u8));
    }
    msg.read_data(buf.as_mut_slice());
    let ghost got = buf@;
    let ghost avail = v.data.len() - v.read_pos;
    let ghost k = if n <= avail { n as int } else { avail };
    assert(got.len() == n);
    while buf.len() < MAX_AREABITS
        invariant
            n <= buf@.len() <= MAX_AREABITS,
            got.len() == n,
            forall|j: int| 0 <= j < n ==> buf@[j] == got[j],
            forall|j: int| n <= j < buf@.len() ==> buf@[j] == 0u8,
        decreases MAX_AREABITS - buf@.len(),
    {
        buf.push(0);
    }
    proof {
        let ab = areabits_read(v, n as int).0;
        assert forall|j: int| 0 <= j < MAX_AREABITS implies buf@[j] == ab[j] by {
            if j < k {
                assert(got[j] == v.data[v.read_pos + j]);
            } else if j < n {
                assert(got[j] == 0u8);
            }
        }
        assert(buf@ =~= ab);
    }
    buf
}

impl FrameRing {
    /// Read a frame message (after its opcode) and store the frame in its
    /// slot of the ring and as the frame last read; the baselines are the
    /// entities' states by number, for entities new to the frame.
    #[verifier::spinoff_prover]
    #[verifier::rlimit(100)]
    pub fn parse_frame(&mut self, msg: &mut NetMsg, baselines: &[EntityWire]) -> (r: FrameOutcome)
        requires
            old(self).wf(),
            cursor_in_data(old(msg)@),
        ensures
            final(self).wf(),
            cursor_in_data(final(msg)@),
            frame_step(*old(self), old(msg)@, baselines@, r, *final(self), final(msg)@),
    {
        let serverframe = msg.read_long();
        let deltaframe = msg.read_long();
        let _suppress = msg.read_byte();
        let count = msg.read_byte();
        let buf = read_areabits(msg, count);
        assert(0 <= deltaframe & 15 <= 15) by (bit_vector);
        assert(0 <= serverframe & 15 <= 15) by (bit_vector);
        let slot: usize = (deltaframe & 15) as usize;
        let hit = deltaframe > 0 && self.frames[slot].serverframe == deltaframe && self.frames[slot].valid;
        let valid = deltaframe <= 0 || hit;
        let ps = msg.read_byte();
        if ps != SVC_PLAYERINFO {
            return FrameOutcome::NoPlayerInfo(ps);
        }
        let (d, stats) = read_player_state(msg);
        let base = if hit { self.frames[slot].playerstate } else { zero_player_exec() };
        let playerstate = apply_player_delta(&base, &d, &stats);
        let pe = msg.read_byte();
        if pe != SVC_PACKETENTITIES {
            return FrameOutcome::NoPacketEntities(pe);
        }
        let entities = if hit {
            read_packet_entities(msg, self.frames[slot].entities.as_slice(), baselines)
        } else {
            let none: Vec<EntityWire> = Vec::new();
            read_packet_entities(msg, none.as_slice(), baselines)
        };
        let frame = ClientFrame {
            valid,
            serverframe,
            servertime: (serverframe as i64) * 100,
            deltaframe,
            areabits: buf,
            playerstate,
            entities,
        };
        let idx: usize = (serverframe & 15) as usize;
        let stored = copy_frame(&frame);
        self.frames.set(idx, stored);
        self.frame = frame;
        FrameOutcome::Stored
    }
}

/// A valid frame that was stored can be the old frame of the next one: a
/// later frame delta-compressed from its number finds it (for positive
/// frame numbers).
pub proof fn law_stored_frame_is_delta_source(
    ring: FrameRing,
    v: MsgView,
    baselines: Seq<EntityWire>,
    r: FrameOutcome,
    next: FrameRing,
    w: MsgView,
)
    requires
        ring.wf(),
        frame_step(ring, v, baselines, r, next, w),
        r == FrameOutcome::Stored,
        next.frame@.valid,
        next.frame@.serverframe > 0,
    ensures
        next.delta_source(next.frame@.serverframe) == Some(next.frame@),
{
}

/// A frame message that stops at a missing opcode changes nothing in the
/// ring; a stored frame always keeps `MAX_AREABITS` area bytes and is
/// marked valid exactly when it is uncompressed or its old frame was found.
pub proof fn law_frame_outcome(
    ring: FrameRing,
    v: MsgView,
    baselines: Seq<EntityWire>,
    r: FrameOutcome,
    next: FrameRing,
    w: MsgView,
)
    requires
        ring.wf(),
        cursor_in_data(v),
        frame_step(ring, v, baselines, r, next, w),
    ensures
        r != FrameOutcome::Stored ==> next == ring,
        r matches FrameOutcome::NoPlayerInfo(op) ==> op != SVC_PLAYERINFO,
        r matches FrameOutcome::NoPacketEntities(op) ==> op != SVC_PACKETENTITIES,
        r == FrameOutcome::Stored ==> next.frame@.areabits.len() == MAX_AREABITS,
        r == FrameOutcome::Stored ==> next.frame@.valid == (next.frame@.deltaframe <= 0 || ring.delta_source(
            next.frame@.deltaframe,
        ) is Some),
        r == FrameOutcome::Stored ==> next.frame@.servertime == next.frame@.serverframe * 100,
{
    let v4 = byte_read(byte_read(long_read(long_read(v).1).1).1).1;
    let count = byte_read(byte_read(long_read(long_read(v).1).1).1).0;
    assert(0 <= areabits_len(count) <= MAX_AREABITS);
}

} // verus!
