//! The entity list of a frame on the wire: the entities of the new frame,
//! each as a delta from the same entity in the old frame (or from the empty
//! state when it is new), a removal for each old entity that is gone, and a
//! terminator.

use vstd::prelude::*;
use crate::delta::{
    add_if, changed_flags, changes_agree, entity_fits, header_bytes, law_entity_bits_roundtrip, law_entity_delta_roundtrip,
    sent_flags,
    apply_entity_delta, byte_of, entity_applied, entity_bits_read, entity_delta_bytes, entity_delta_read, has, opt,
    read_delta_entity, read_entity_bits, write_delta_entity, EntityWire, FloatChanges, U_MOREBITS1, U_NUMBER16, U_REMOVE,
};
use crate::net_msg::{advanced, at_cursor, cursor_in_data, lemma_at_cursor_split, short_bytes, MsgView, NetMsg};

verus! {

/// The opcode that starts an entity list.
pub const SVC_PACKETENTITIES: i32 = 18;

/// The entity state that a new entity is sent against.
pub open spec fn empty_entity() -> EntityWire {
    EntityWire {
        number: 0,
        origin: [0, 0, 0],
        angles: [0, 0, 0],
        old_origin: [0, 0, 0],
        modelindex: 0,
        modelindex2: 0,
        modelindex3: 0,
        modelindex4: 0,
        frame: 0,
        skinnum: 0,
        effects: 0,
        renderfx: 0,
        solid: 0,
        sound: 0,
        event: 0,
    }
}

/// The flags of a removal: REMOVE, and for numbers from 256 on the 16-bit
/// number flag with the second flag byte that carries it.
pub open spec fn remove_flags(number: i32) -> u32 {
    if number >= 256 { U_REMOVE | U_NUMBER16 | U_MOREBITS1 } else { U_REMOVE }
}

/// What a removal of entity `number` writes: its flag bytes and the number.
pub open spec fn remove_bytes(number: i32) -> Seq<u8> {
    let flags = remove_flags(number);
    byte_of((flags & 0xFF) as i32) + opt(has(flags, U_MOREBITS1), byte_of(((flags >> 8u32) & 0xFF) as i32)) + if has(
        flags,
        U_NUMBER16,
    ) {
        short_bytes(number)
    } else {
        byte_of(number)
    }
}

/// The entries of the list for the old entities `old` and the new ones
/// `new` (both sorted by number), `moved[i]` telling which floating-point
/// fields of `new[i]` differ from the state it is sent against: an old
/// entity below the next new one is removed; a new entity with the number
/// of the next old one is sent against it; any other new entity is sent,
/// forced, against the empty state; old entities left at the end are
/// removed.
pub open spec fn entity_list_bytes(old: Seq<EntityWire>, new: Seq<EntityWire>, moved: Seq<FloatChanges>) -> Seq<u8>
    decreases old.len() + new.len(),
{
    if new.len() == 0 {
        if old.len() == 0 {
            Seq::empty()
        } else {
            remove_bytes(old[0].number) + entity_list_bytes(old.drop_first(), new, moved)
        }
    } else if old.len() > 0 && old[0].number < new[0].number {
        remove_bytes(old[0].number) + entity_list_bytes(old.drop_first(), new, moved)
    } else if old.len() > 0 && old[0].number == new[0].number {
        entity_delta_bytes(old[0], new[0], moved[0], false, false) + entity_list_bytes(
            old.drop_first(),
            new.drop_first(),
            moved.drop_first(),
        )
    } else {
        entity_delta_bytes(empty_entity(), new[0], moved[0], true, true) + entity_list_bytes(
            old,
            new.drop_first(),
            moved.drop_first(),
        )
    }
}

/// What `write_packet_entities_list` appends: the opcode, the entries, and
/// the terminator (a zero flag byte and entity number 0).
pub open spec fn packet_entities_bytes(old: Seq<EntityWire>, new: Seq<EntityWire>, moved: Seq<FloatChanges>) -> Seq<u8> {
    byte_of(SVC_PACKETENTITIES) + entity_list_bytes(old, new, moved) + seq![0u8, 0u8]
}

fn write_entity_remove(msg: &mut NetMsg, number: i32)
    requires
        cursor_in_data(old(msg)@),
    ensures
        cursor_in_data(final(msg)@),
        final(msg)@ == (MsgView { data: old(msg)@.data + remove_bytes(number), ..old(msg)@ }),
{
    let flags: u32 = if number >= 256 { U_REMOVE | U_NUMBER16 | U_MOREBITS1 } else { U_REMOVE };
    let ghost start = msg@.data;
    msg.write_byte((flags & 0xFF) as i32);
    let ghost a = msg@.data;
    if flags & U_MOREBITS1 != 0 {
        msg.write_byte(((flags >> 8u32) & 0xFF) as i32);
    }
    assert(msg@.data =~= a + opt(has(flags, U_MOREBITS1), byte_of(((flags >> 8u32) & 0xFF) as i32)));
    let ghost b = msg@.data;
    if flags & U_NUMBER16 != 0 {
        msg.write_short(number);
    } else {
        msg.write_byte(number);
    }
    assert(msg@.data =~= b + if has(flags, U_NUMBER16) { short_bytes(number) } else { byte_of(number) });
    assert(msg@.data =~= start + remove_bytes(number));
}

fn empty_entity_exec() -> (r: EntityWire)
    ensures
        r == empty_entity(),
{
    EntityWire {
        number: 0,
        origin: [0, 0, 0],
        angles: [0, 0, 0],
        old_origin: [0, 0, 0],
        modelindex: 0,
        modelindex2: 0,
        modelindex3: 0,
        modelindex4: 0,
        frame: 0,
        skinnum: 0,
        effects: 0,
        renderfx: 0,
        solid: 0,
        sound: 0,
        event: 0,
    }
}

/// Write the entity list of a frame: the opcode, an entry for each new
/// entity and each removed old one in the order of their numbers (both
/// lists sorted by number), and the terminator. `moved[i]` tells which
/// floating-point fields of `new[i]` differ from the state it is sent
/// against: the old entity with its number, or the empty state.
pub fn write_packet_entities_list(msg: &mut NetMsg, old_list: &[EntityWire], new_list: &[EntityWire], moved: &[FloatChanges])
    requires
        cursor_in_data(old(msg)@),
        moved@.len() == new_list@.len(),
    ensures
        cursor_in_data(final(msg)@),
        final(msg)@ == (MsgView { data: old(msg)@.data + packet_entities_bytes(old_list@, new_list@, moved@), ..old(msg)@ }),
{
    let ghost start = msg@.data;
    msg.write_byte(SVC_PACKETENTITIES);
    let ghost head = msg@.data;
    let ghost total = entity_list_bytes(old_list@, new_list@, moved@);
    let mut oi: usize = 0;
    let mut ni: usize = 0;
    let ghost mut done: Seq<u8> = Seq::empty();
    assert(old_list@.skip(0) =~= old_list@);
    assert(new_list@.skip(0) =~= new_list@);
    assert(moved@.skip(0) =~= moved@);
    while ni < new_list.len() || oi < old_list.len()
        invariant
            oi <= old_list@.len(),
            ni <= new_list@.len(),
            moved@.len() == new_list@.len(),
            cursor_in_data(msg@),
            msg@ == (MsgView { data: head + done, ..old(msg)@ }),
            done + entity_list_bytes(old_list@.skip(oi as int), new_list@.skip(ni as int), moved@.skip(ni as int)) == total,
        decreases old_list@.len() - oi + new_list@.len() - ni,
    {
        let ghost os = old_list@.skip(oi as int);
        let ghost ns = new_list@.skip(ni as int);
        let ghost ms = moved@.skip(ni as int);
        let ghost before = msg@.data;
        let ghost piece: Seq<u8>;
        proof {
            if oi < old_list@.len() {
                assert(os.drop_first() =~= old_list@.skip(oi + 1));
            }
            if ni < new_list@.len() {
                assert(ns.drop_first() =~= new_list@.skip(ni + 1));
                assert(ms.drop_first() =~= moved@.skip(ni + 1));
            }
        }
        if ni == new_list.len() || (oi < old_list.len() && old_list[oi].number < new_list[ni].number) {
            write_entity_remove(msg, old_list[oi].number);
            proof {
                piece = remove_bytes(os[0].number);
            }
            oi = oi + 1;
        } else if oi < old_list.len() && old_list[oi].number == new_list[ni].number {
            write_delta_entity(msg, &old_list[oi], &new_list[ni], &moved[ni], false, false);
            proof {
                piece = entity_delta_bytes(os[0], ns[0], ms[0], false, false);
            }
            oi = oi + 1;
            ni = ni + 1;
        } else {
            let e = empty_entity_exec();
            write_delta_entity(msg, &e, &new_list[ni], &moved[ni], true, true);
            proof {
                piece = entity_delta_bytes(empty_entity(), ns[0], ms[0], true, true);
            }
            ni = ni + 1;
        }
        proof {
            assert(msg@.data == before + piece);
            vstd::seq_lib::lemma_concat_associative(head, done, piece);
            vstd::seq_lib::lemma_concat_associative(
                done,
                piece,
                entity_list_bytes(old_list@.skip(oi as int), new_list@.skip(ni as int), moved@.skip(ni as int)),
            );
            done = done + piece;
        }
    }
    assert(old_list@.skip(oi as int) =~= Seq::<EntityWire>::empty());
    assert(new_list@.skip(ni as int) =~= Seq::<EntityWire>::empty());
    assert(done == total);
    msg.write_byte(0);
    msg.write_byte(0);
    assert(msg@.data =~= start + packet_entities_bytes(old_list@, new_list@, moved@));
}

/// Entity numbers run below this.
pub const MAX_EDICTS: i32 = 1024;

/// Reading the flags and number of an entry with a byte left moves the
/// cursor forward, and never past the end.
pub proof fn lemma_bits_progress(v: MsgView)
    requires
        v.read_pos < v.data.len(),
    ensures
        entity_bits_read(v).1.data == v.data,
        v.read_pos < entity_bits_read(v).1.read_pos <= v.data.len(),
{
}

/// `w` is a state that reading from `v` can reach: the same data, the
/// cursor no further back, and not past the end.
pub open spec fn forward(v: MsgView, w: MsgView) -> bool {
    &&& w.data == v.data
    &&& v.read_pos <= w.read_pos <= w.data.len()
}

/// The first index from `i` on whose old entity is not below `n`.
pub open spec fn skip_below(old: Seq<EntityWire>, i: int, n: i32) -> int
    decreases old.len() - i,
{
    if 0 <= i < old.len() && old[i].number < n {
        skip_below(old, i + 1, n)
    } else {
        i
    }
}

pub proof fn lemma_skip_below(old: Seq<EntityWire>, i: int, n: i32)
    requires
        0 <= i <= old.len(),
    ensures
        i <= skip_below(old, i, n) <= old.len(),
    decreases old.len() - i,
{
    if i < old.len() && old[i].number < n {
        lemma_skip_below(old, i + 1, n);
    }
}

/// The state an entry for entity `num` is read against: the old entity at
/// `j` when it has that number, else the entity's baseline, else the empty
/// state.
pub open spec fn delta_base(old: Seq<EntityWire>, j: int, baselines: Seq<EntityWire>, num: i32) -> EntityWire {
    if 0 <= j < old.len() && old[j].number == num {
        old[j]
    } else if 0 <= num < baselines.len() {
        baselines[num as int]
    } else {
        empty_entity()
    }
}

/// What `read_packet_entities` yields from state `v`, with the old entities
/// from index `i` not yet placed and `acc` read so far. Each entry first
/// places the old entities below its number unchanged; a removal drops the
/// old entity with its number; any other entry is read on top of its
/// base. The list ends at entity number 0 or a number from `MAX_EDICTS` on,
/// and the old entities not yet placed follow. When no byte is left where
/// an entry should start, reading stops there too. (Reading the fields
/// only moves the cursor forward, which `read_delta_entity` ensures; the
/// last branch states that it goes on only then.)
pub open spec fn entities_read(
    v: MsgView,
    old: Seq<EntityWire>,
    i: int,
    baselines: Seq<EntityWire>,
    acc: Seq<EntityWire>,
) -> (Seq<EntityWire>, MsgView)
    decreases v.data.len() - v.read_pos,
{
    if !(0 <= i <= old.len()) || !(v.read_pos < v.data.len()) {
        (acc + old.subrange(i, old.len() as int), v)
    } else {
        let ((num, bits), v1) = entity_bits_read(v);
        proof {
            lemma_bits_progress(v);
        }
        if num >= MAX_EDICTS || num == 0 {
            (acc + old.subrange(i, old.len() as int), v1)
        } else {
            let j = skip_below(old, i, num);
            let acc1 = acc + old.subrange(i, j);
            let hit = 0 <= j < old.len() && old[j].number == num;
            let j2 = if hit { j + 1 } else { j };
            if has(bits, U_REMOVE) {
                entities_read(v1, old, j2, baselines, acc1)
            } else {
                let (d, v2) = entity_delta_read(v1, bits);
                let acc2 = acc1.push(entity_applied(delta_base(old, j, baselines, num), num, d));
                if forward(v1, v2) {
                    entities_read(v2, old, j2, baselines, acc2)
                } else {
                    (acc2 + old.subrange(j2, old.len() as int), v2)
                }
            }
        }
    }
}

/// An entry for an entity that the old list holds is read on top of that
/// old entity, whatever the baselines: the old entities below it are
/// placed unchanged, then the old entity with the entry applied, and the
/// old entity is not placed again.
pub proof fn law_entry_applies_on_old_entity(
    v: MsgView,
    old: Seq<EntityWire>,
    i: int,
    baselines: Seq<EntityWire>,
    acc: Seq<EntityWire>,
    j: int,
)
    requires
        0 <= i <= j < old.len(),
        v.read_pos < v.data.len(),
        forall|k: int| i <= k < j ==> old[k].number < entity_bits_read(v).0.0,
        old[j].number == entity_bits_read(v).0.0,
        0 < entity_bits_read(v).0.0 < MAX_EDICTS,
        has(entity_bits_read(v).0.1, U_REMOVE) == false,
        forward(entity_bits_read(v).1, entity_delta_read(entity_bits_read(v).1, entity_bits_read(v).0.1).1),
    ensures
        ({
            let ((num, bits), v1) = entity_bits_read(v);
            let (d, v2) = entity_delta_read(v1, bits);
            entities_read(v, old, i, baselines, acc) == entities_read(
                v2,
                old,
                j + 1,
                baselines,
                (acc + old.subrange(i, j)).push(entity_applied(old[j], num, d)),
            )
        }),
{
    let num = entity_bits_read(v).0.0;
    lemma_skip_below_stops(old, i, j, num);
}

/// The old entities below `n` from `i` on end at `j`, where the entity
/// numbered `n` stands.
proof fn lemma_skip_below_stops(old: Seq<EntityWire>, i: int, j: int, n: i32)
    requires
        0 <= i <= j < old.len(),
        forall|k: int| i <= k < j ==> old[k].number < n,
        old[j].number == n,
    ensures
        skip_below(old, i, n) == j,
    decreases j - i,
{
    if i < j {
        lemma_skip_below_stops(old, i + 1, j, n);
    }
}

/// Read the entity list of a frame (after its opcode) against the old
/// frame's entities `old_list` (sorted by number) and the baselines
/// indexed by entity number; the result is sorted by number when the
/// entries are.
pub fn read_packet_entities(msg: &mut NetMsg, old_list: &[EntityWire], baselines: &[EntityWire]) -> (r: Vec<EntityWire>)
    requires
        cursor_in_data(old(msg)@),
    ensures
        cursor_in_data(final(msg)@),
        (r@, final(msg)@) == entities_read(old(msg)@, old_list@, 0, baselines@, Seq::empty()),
{
    let mut result: Vec<EntityWire> = Vec::new();
    let mut i: usize = 0;
    loop
        invariant_except_break
            entities_read(msg@, old_list@, i as int, baselines@, result@) == entities_read(
                old(msg)@,
                old_list@,
                0,
                baselines@,
                Seq::empty(),
            ),
        invariant
            i <= old_list@.len(),
            cursor_in_data(msg@),
        ensures
            (result@ + old_list@.subrange(i as int, old_list@.len() as int), msg@) == entities_read(
                old(msg)@,
                old_list@,
                0,
                baselines@,
                Seq::empty(),
            ),
        decreases msg@.data.len() - msg@.read_pos,
    {
        if msg.read_cursor() >= msg.len() {
            break;
        }
        let ghost v = msg@;
        proof {
            lemma_bits_progress(v);
        }
        let (num, bits) = read_entity_bits(msg);
        if num >= MAX_EDICTS || num == 0 {
            break;
        }
        let ghost acc0 = result@;
        let ghost i0 = i as int;
        proof {
            lemma_skip_below(old_list@, i0, num);
        }
        while i < old_list.len() && old_list[i].number < num
            invariant
                0 <= i0 <= i <= old_list@.len(),
                skip_below(old_list@, i as int, num) == skip_below(old_list@, i0, num),
                result@ == acc0 + old_list@.subrange(i0, i as int),
            decreases old_list@.len() - i,
        {
            result.push(old_list[i]);
            i = i + 1;
            assert(result@ =~= acc0 + old_list@.subrange(i0, i as int));
        }
        let ghost j = i as int;
        assert(j == skip_below(old_list@, i0, num));
        let hit = i < old_list.len() && old_list[i].number == num;
        if bits & U_REMOVE != 0 {
            if hit {
                i = i + 1;
            }
        } else {
            let from = if hit {
                old_list[i]
            } else if 0 <= num && (num as usize) < baselines.len() {
                baselines[num as usize]
            } else {
                empty_entity_exec()
            };
            if hit {
                i = i + 1;
            }
            let d = read_delta_entity(msg, bits);
            let e = apply_entity_delta(&from, num, &d);
            result.push(e);
        }
    }
    let ghost acc = result@;
    let ghost i0 = i as int;
    while i < old_list.len()
        invariant
            0 <= i0 <= i <= old_list@.len(),
            result@ == acc + old_list@.subrange(i0, i as int),
            (acc + old_list@.subrange(i0, old_list@.len() as int), msg@) == entities_read(
                old(msg)@,
                old_list@,
                0,
                baselines@,
                Seq::empty(),
            ),
        decreases old_list@.len() - i,
    {
        result.push(old_list[i]);
        i = i + 1;
        assert(result@ =~= acc + old_list@.subrange(i0, i as int));
    }
    assert(old_list@.subrange(i0, i as int) =~= old_list@.subrange(i0, old_list@.len() as int));
    result
}

/// The flags of a removal are the flags sent for a change of nothing but
/// the removal flag, and their bytes are the header bytes of those flags.
proof fn lemma_remove_flag_bits(big: bool, f1: u32, f2: u32, f3: u32, bits: u32)
    by (bit_vector)
    requires
        f1 == if big { U_REMOVE | U_NUMBER16 } else { U_REMOVE },
        f2 == if f1 & 0xFF00_0000u32 != 0 { f1 | crate::delta::U_MOREBITS3 } else { f1 },
        f3 == if f2 & 0x00FF_0000u32 != 0 { f2 | crate::delta::U_MOREBITS2 } else { f2 },
        bits == if f3 & 0x0000_FF00u32 != 0 { f3 | U_MOREBITS1 } else { f3 },
    ensures
        bits == if big { U_REMOVE | U_NUMBER16 | U_MOREBITS1 } else { U_REMOVE },
        (bits as i32) & 0xFF == (bits & 0xFF) as i32,
        ((bits >> 8u32) as i32) & 0xFF == ((bits >> 8u32) & 0xFF) as i32,
        bits & crate::delta::U_MOREBITS2 == 0,
        bits & crate::delta::U_MOREBITS3 == 0,
        bits & U_REMOVE != 0,
        U_REMOVE & 0xF000_2000u32 == 0,
        U_REMOVE & 0x0080_8180u32 == 0,
{
}

/// Reading a removal where it was written gives its entity number and
/// flags holding the removal flag.
pub proof fn law_remove_back(v: MsgView, n: i32)
    requires
        0 <= n < 32768,
        at_cursor(v, remove_bytes(n)),
    ensures
        entity_bits_read(v).0 == (n, remove_flags(n)),
        entity_bits_read(v).1 == advanced(v, remove_bytes(n).len()),
        has(remove_flags(n), U_REMOVE),
{
    let big = n >= 256;
    let f1 = add_if(U_REMOVE, big, U_NUMBER16);
    let f2 = add_if(f1, f1 & 0xFF00_0000 != 0, crate::delta::U_MOREBITS3);
    let f3 = add_if(f2, f2 & 0x00FF_0000 != 0, crate::delta::U_MOREBITS2);
    let bits = add_if(f3, f3 & 0x0000_FF00 != 0, U_MOREBITS1);
    assert(bits == sent_flags(U_REMOVE, n));
    reveal(add_if);
    lemma_remove_flag_bits(big, f1, f2, f3, bits);
    reveal(header_bytes);
    assert(header_bytes(bits, n) =~= remove_bytes(n));
    law_entity_bits_roundtrip(v, U_REMOVE, n);
}

/// Entity numbers in strictly increasing order, each a real entity
/// number (from 1 to below `MAX_EDICTS`).
pub open spec fn numbered_in_order(s: Seq<EntityWire>) -> bool {
    &&& forall|a: int, b: int| 0 <= a < b < s.len() ==> #[trigger] s[a].number < #[trigger] s[b].number
    &&& forall|a: int| 0 <= a < s.len() ==> 0 < #[trigger] s[a].number < MAX_EDICTS
}

/// An entity of both frames comes back from its delta: it fits the
/// widths, `ch` tells the truth, an unchanged event is 0, and when
/// something is sent an old origin not sent is the previous origin; when
/// nothing is sent the entity is unchanged.
pub open spec fn pair_back(from: EntityWire, to: EntityWire, ch: FloatChanges) -> bool {
    &&& entity_fits(to)
    &&& changes_agree(from, to, ch)
    &&& to.event != from.event || to.event == 0
    &&& if changed_flags(from, to, ch, false) != 0 {
        ch.old_origin || to.old_origin == from.origin
    } else {
        to == from
    }
}

/// An entity new to the frame comes back from its delta against the empty
/// state: it fits the widths and `ch` tells the truth.
pub open spec fn new_back(to: EntityWire, ch: FloatChanges) -> bool {
    entity_fits(to) && changes_agree(empty_entity(), to, ch)
}

/// Each new entity comes back from the entry it is written as, going
/// through the two lists as `entity_list_bytes` does.
pub open spec fn list_back(old: Seq<EntityWire>, new: Seq<EntityWire>, moved: Seq<FloatChanges>) -> bool
    decreases old.len() + new.len(),
{
    if new.len() == 0 {
        true
    } else if old.len() > 0 && old[0].number < new[0].number {
        list_back(old.drop_first(), new, moved)
    } else if old.len() > 0 && old[0].number == new[0].number {
        pair_back(old[0], new[0], moved[0]) && list_back(old.drop_first(), new.drop_first(), moved.drop_first())
    } else {
        new_back(new[0], moved[0]) && list_back(old, new.drop_first(), moved.drop_first())
    }
}

/// The smallest number that the next entry can have: the lower of the
/// next old entity and the next new one.
pub open spec fn next_lower(old: Seq<EntityWire>, i: int, new: Seq<EntityWire>) -> int {
    if i < old.len() && new.len() > 0 {
        if old[i].number < new[0].number { old[i].number as int } else { new[0].number as int }
    } else if i < old.len() {
        old[i].number as int
    } else if new.len() > 0 {
        new[0].number as int
    } else {
        MAX_EDICTS as int
    }
}

/// An old entity below the next entry is placed unchanged before it.
proof fn lemma_copy_ahead(v: MsgView, old: Seq<EntityWire>, i: int, b: Seq<EntityWire>, acc: Seq<EntityWire>)
    requires
        0 <= i < old.len(),
        v.read_pos < v.data.len(),
        entity_bits_read(v).0.0 == 0 || (old[i].number < entity_bits_read(v).0.0 < MAX_EDICTS),
    ensures
        entities_read(v, old, i, b, acc) == entities_read(v, old, i + 1, b, acc.push(old[i])),
{
    let num = entity_bits_read(v).0.0;
    if num == 0 {
        assert(acc + old.subrange(i, old.len() as int) =~= acc.push(old[i]) + old.subrange(i + 1, old.len() as int));
    } else {
        lemma_skip_below(old, i + 1, num);
        let j = skip_below(old, i + 1, num);
        assert(skip_below(old, i, num) == j);
        assert(acc + old.subrange(i, j) =~= acc.push(old[i]) + old.subrange(i + 1, j));
    }
}

/// The terminator ends the list.
proof fn lemma_terminator(v: MsgView)
    requires
        at_cursor(v, seq![0u8, 0u8]),
    ensures
        entity_bits_read(v).0.0 == 0,
        entity_bits_read(v).1 == advanced(v, 2),
{
    let z: i32 = 0;
    assert(seq![0u8, 0u8] =~= seq![z as u8] + seq![z as u8]);
    lemma_at_cursor_split(v, seq![z as u8], seq![z as u8]);
    crate::net_msg::law_byte_roundtrip(v, 0);
    crate::net_msg::law_byte_roundtrip(advanced(v, 1), 0);
    assert(0u32 & 0x80u32 == 0 && 0u32 & 0x8000u32 == 0 && 0u32 & 0x80_0000u32 == 0 && 0u32 & 0x0FFF_DFFFu32 == 0
        && 0u32 & 0x100u32 == 0) by (bit_vector);
}

/// Reading the entries written for the old entities from `i` on and the
/// new entities `nw`, and the terminator, places exactly the new entities.
#[verifier::spinoff_prover]
#[verifier::rlimit(100)]
proof fn lemma_list_back(
    v: MsgView,
    old: Seq<EntityWire>,
    i: int,
    nw: Seq<EntityWire>,
    ms: Seq<FloatChanges>,
    b: Seq<EntityWire>,
    acc: Seq<EntityWire>,
)
    requires
        0 <= i <= old.len(),
        ms.len() == nw.len(),
        numbered_in_order(old),
        numbered_in_order(nw),
        list_back(old.skip(i), nw, ms),
        forall|k: int| 0 <= k < b.len() ==> #[trigger] b[k] == empty_entity(),
        at_cursor(v, entity_list_bytes(old.skip(i), nw, ms) + seq![0u8, 0u8]),
    ensures
        entities_read(v, old, i, b, acc) == (
            acc + nw,
            advanced(v, entity_list_bytes(old.skip(i), nw, ms).len() + 2),
        ),
        v.read_pos < v.data.len(),
        entity_bits_read(v).0.0 == 0 || next_lower(old, i, nw) <= entity_bits_read(v).0.0 < MAX_EDICTS,
    decreases old.len() - i + nw.len(),
{
    let os = old.skip(i);
    let bytes = entity_list_bytes(os, nw, ms);
    let tail = seq![0u8, 0u8];
    lemma_at_cursor_split(v, bytes, tail);
    if i < old.len() {
        assert(os[0] == old[i]);
        assert(os.drop_first() =~= old.skip(i + 1));
    }
    if nw.len() > 0 {
        assert(numbered_in_order(nw.drop_first())) by {
            assert forall|a: int, c: int| 0 <= a < c < nw.drop_first().len() implies #[trigger] nw.drop_first()[a].number
                < #[trigger] nw.drop_first()[c].number by {
                assert(nw.drop_first()[a] == nw[a + 1]);
                assert(nw.drop_first()[c] == nw[c + 1]);
            }
            assert forall|a: int| 0 <= a < nw.drop_first().len() implies 0 < #[trigger] nw.drop_first()[a].number
                < MAX_EDICTS by {
                assert(nw.drop_first()[a] == nw[a + 1]);
            }
        }
    }
    if nw.len() == 0 && i == old.len() {
        assert(bytes == Seq::<u8>::empty());
        assert(bytes + tail =~= tail);
        lemma_terminator(v);
        assert(old.subrange(i, old.len() as int) =~= Seq::<EntityWire>::empty());
        assert(acc + nw =~= acc);
    } else if i < old.len() && (nw.len() == 0 || old[i].number < nw[0].number) {
        let n = old[i].number;
        let rest = entity_list_bytes(old.skip(i + 1), nw, ms);
        assert(bytes == remove_bytes(n) + rest);
        vstd::seq_lib::lemma_concat_associative(remove_bytes(n), rest, tail);
        lemma_at_cursor_split(v, remove_bytes(n), rest + tail);
        law_remove_back(v, n);
        let v1 = advanced(v, remove_bytes(n).len());
        lemma_list_back(v1, old, i + 1, nw, ms, b, acc);
        lemma_skip_below_stops(old, i, i, n);
        assert(acc + old.subrange(i, i) =~= acc);
    } else if i < old.len() && old[i].number == nw[0].number {
        let from = old[i];
        let to = nw[0];
        let ch = ms[0];
        let n = to.number;
        let db = entity_delta_bytes(from, to, ch, false, false);
        let rest = entity_list_bytes(old.skip(i + 1), nw.drop_first(), ms.drop_first());
        assert(bytes == db + rest);
        vstd::seq_lib::lemma_concat_associative(db, rest, tail);
        lemma_at_cursor_split(v, db, rest + tail);
        assert(acc.push(to) + nw.drop_first() =~= acc + nw);
        if changed_flags(from, to, ch, false) != 0 {
            law_entity_delta_roundtrip(v, from, to, ch, false, false);
            let v2 = advanced(v, db.len());
            lemma_list_back(v2, old, i + 1, nw.drop_first(), ms.drop_first(), b, acc.push(to));
            lemma_skip_below_stops(old, i, i, n);
            assert(acc + old.subrange(i, i) =~= acc);
            assert(delta_base(old, i, b, n) == from);
        } else {
            assert(db == Seq::<u8>::empty());
            assert(advanced(v, 0) == v);
            lemma_list_back(v, old, i + 1, nw.drop_first(), ms.drop_first(), b, acc.push(to));
            if i + 1 < old.len() {
                assert(old[i].number < old[i + 1].number);
            }
            if nw.drop_first().len() > 0 {
                assert(nw[0].number < nw[1].number);
                assert(nw.drop_first()[0] == nw[1]);
            }
            lemma_copy_ahead(v, old, i, b, acc);
        }
    } else {
        let to = nw[0];
        let ch = ms[0];
        let n = to.number;
        let db = entity_delta_bytes(empty_entity(), to, ch, true, true);
        let rest = entity_list_bytes(os, nw.drop_first(), ms.drop_first());
        assert(bytes == db + rest);
        vstd::seq_lib::lemma_concat_associative(db, rest, tail);
        lemma_at_cursor_split(v, db, rest + tail);
        law_entity_delta_roundtrip(v, empty_entity(), to, ch, true, true);
        let v2 = advanced(v, db.len());
        lemma_list_back(v2, old, i, nw.drop_first(), ms.drop_first(), b, acc.push(to));
        assert(acc.push(to) + nw.drop_first() =~= acc + nw);
        assert(skip_below(old, i, n) == i);
        assert(acc + old.subrange(i, i) =~= acc);
        if 0 <= n < b.len() {
            assert(b[n as int] == empty_entity());
        }
        assert(delta_base(old, i, b, n) == empty_entity());
    }
}

/// Reading the entity list that `write_packet_entities_list` wrote,
/// against the same old entities, gives back exactly the new entities,
/// and the cursor ends after the list. This holds for lists in order of
/// real entity numbers, each new entity able to come back from its entry
/// (`list_back`), and baselines that are empty for the entities new to
/// the frame, since the list sends those against the empty state.
pub proof fn law_packet_entities_roundtrip(
    v: MsgView,
    old: Seq<EntityWire>,
    new: Seq<EntityWire>,
    moved: Seq<FloatChanges>,
    baselines: Seq<EntityWire>,
)
    requires
        moved.len() == new.len(),
        numbered_in_order(old),
        numbered_in_order(new),
        list_back(old, new, moved),
        forall|k: int| 0 <= k < baselines.len() ==> #[trigger] baselines[k] == empty_entity(),
        at_cursor(v, packet_entities_bytes(old, new, moved)),
    ensures
        crate::net_msg::byte_read(v) == (SVC_PACKETENTITIES, advanced(v, 1)),
        entities_read(advanced(v, 1), old, 0, baselines, Seq::empty()) == (
            new,
            advanced(v, packet_entities_bytes(old, new, moved).len()),
        ),
{
    let op = byte_of(SVC_PACKETENTITIES);
    let list = entity_list_bytes(old, new, moved);
    vstd::seq_lib::lemma_concat_associative(op, list, seq![0u8, 0u8]);
    lemma_at_cursor_split(v, op, list + seq![0u8, 0u8]);
    crate::net_msg::law_byte_roundtrip(v, SVC_PACKETENTITIES);
    assert(old.skip(0) =~= old);
    lemma_list_back(advanced(v, 1), old, 0, new, moved, baselines, Seq::empty());
    assert(Seq::<EntityWire>::empty() + new =~= new);
}

/// An entry numbered 0, or `MAX_EDICTS` or more, ends the list: the old
/// entities not yet placed follow unchanged, and nothing more is read.
pub proof fn law_list_end(v: MsgView, old: Seq<EntityWire>, i: int, b: Seq<EntityWire>, acc: Seq<EntityWire>)
    requires
        0 <= i <= old.len(),
        v.read_pos < v.data.len(),
        entity_bits_read(v).0.0 == 0 || entity_bits_read(v).0.0 >= 1024,
    ensures
        entities_read(v, old, i, b, acc) == (acc + old.subrange(i, old.len() as int), entity_bits_read(v).1),
{
}

/// A removal drops the old entity with its number: the old entities below
/// it are placed unchanged and reading goes on after it, whatever the
/// baselines.
pub proof fn law_removal_drops_old_entity(
    v: MsgView,
    old: Seq<EntityWire>,
    i: int,
    b: Seq<EntityWire>,
    acc: Seq<EntityWire>,
    j: int,
)
    requires
        0 <= i <= j < old.len(),
        v.read_pos < v.data.len(),
        forall|k: int| i <= k < j ==> old[k].number < entity_bits_read(v).0.0,
        old[j].number == entity_bits_read(v).0.0,
        0 < entity_bits_read(v).0.0 < 1024,
        has(entity_bits_read(v).0.1, U_REMOVE),
    ensures
        entities_read(v, old, i, b, acc) == entities_read(entity_bits_read(v).1, old, j + 1, b, acc + old.subrange(i, j)),
{
    lemma_skip_below_stops(old, i, j, entity_bits_read(v).0.0);
}

} // verus!
