//! BSP collision data: the file header, the integer lumps of the collision
//! model, area-portal connectivity, and the MD4 block checksum that the
//! server and client compare to agree on a map.

use vstd::prelude::*;
use crate::binary::{
    read_u32, signed16, signed32, try_read_i16, try_read_i32, try_read_u16, try_read_u32, u16_at,
    u32_at,
};
use crate::error::{is_drop, Q2Error, Q2Result};
use crate::filesystem::{is_name_end, name_field_len};
use crate::text::{
    bytes_to_string_lossy, decimal, hex8, push_decimal, push_hex8, push_str_chars, str_chars,
    string_from_chars, utf8_lossy,
};

verus! {

// ---------------------------------------------------------------------------
// MD4 (RFC 1320) and the block checksum
// ---------------------------------------------------------------------------

/// The four chaining words A, B, C, D.
pub type Md4State = (u32, u32, u32, u32);

/// Initial chaining value.
pub open spec fn md4_init() -> Md4State {
    (0x6745_2301u32, 0xefcd_ab89u32, 0x98ba_dcfeu32, 0x1032_5476u32)
}

/// Round-one selection function.
pub open spec fn md4_f(x: u32, y: u32, z: u32) -> u32 {
    (x & y) | (!x & z)
}

/// Round-two majority function.
pub open spec fn md4_g(x: u32, y: u32, z: u32) -> u32 {
    (x & y) | (x & z) | (y & z)
}

/// Round-three parity function.
pub open spec fn md4_h(x: u32, y: u32, z: u32) -> u32 {
    x ^ y ^ z
}

/// Circular left rotation by `s` bits, `0 < s < 32`.
pub open spec fn rotl(v: u32, s: u32) -> u32 {
    (v << s) | (v >> ((32 - s) as u32))
}

/// Which message word step `k` (0..48) adds: in order for round one, in
/// column order (0, 4, 8, 12, 1, ...) for round two, in bit-reversed order
/// (0, 8, 4, 12, 2, ...) for round three.
pub open spec fn word_index(k: int) -> int {
    if k < 16 {
        k
    } else if k < 32 {
        let i = k - 16;
        (i % 4) * 4 + i / 4
    } else {
        let i = k - 32;
        (i % 2) * 8 + ((i / 2) % 2) * 4 + ((i / 4) % 2) * 2 + i / 8
    }
}

/// The rotation of step `k`: (3, 7, 11, 19), (3, 5, 9, 13), (3, 9, 11, 15)
/// repeated through rounds one, two and three.
pub open spec fn shift_amount(k: int) -> u32 {
    let j = k % 4;
    if k < 16 {
        if j == 0 { 3 } else if j == 1 { 7 } else if j == 2 { 11 } else { 19 }
    } else if k < 32 {
        if j == 0 { 3 } else if j == 1 { 5 } else if j == 2 { 9 } else { 13 }
    } else {
        if j == 0 { 3 } else if j == 1 { 9 } else if j == 2 { 11 } else { 15 }
    }
}

/// The additive constant of the round that step `k` belongs to.
pub open spec fn round_constant(k: int) -> u32 {
    if k < 16 { 0 } else if k < 32 { 0x5a82_7999 } else { 0x6ed9_eba1 }
}

/// The boolean function of the round that step `k` belongs to.
pub open spec fn round_mix(k: int, b: u32, c: u32, d: u32) -> u32 {
    if k < 16 { md4_f(b, c, d) } else if k < 32 { md4_g(b, c, d) } else { md4_h(b, c, d) }
}

/// One step: `a = (a + mix(b, c, d) + X[w] + K) <<< s`, after which the
/// words rotate so that the next step updates the old `d`.
pub open spec fn md4_step(st: Md4State, x: Seq<u32>, k: int) -> Md4State {
    let v = st.0.wrapping_add(round_mix(k, st.1, st.2, st.3)).wrapping_add(
        x[word_index(k)],
    ).wrapping_add(round_constant(k));
    (st.3, rotl(v, shift_amount(k)), st.1, st.2)
}

/// The first `n` steps applied to `st`.
pub open spec fn md4_steps(st: Md4State, x: Seq<u32>, n: nat) -> Md4State
    decreases n,
{
    if n == 0 {
        st
    } else {
        md4_step(md4_steps(st, x, (n - 1) as nat), x, n - 1)
    }
}

/// Process one 16-word block: 48 steps, then add the result to the input.
pub open spec fn md4_block(st: Md4State, x: Seq<u32>) -> Md4State {
    let e = md4_steps(st, x, 48);
    (st.0.wrapping_add(e.0), st.1.wrapping_add(e.1), st.2.wrapping_add(e.2), st.3.wrapping_add(e.3))
}

/// Number of zero bytes after the 0x80 marker so that the length becomes
/// 56 modulo 64.
pub open spec fn pad_zero_count(n: int) -> int {
    (55 - n % 64) % 64
}

/// The eight little-endian bytes of `v`.
pub open spec fn le_bytes64(v: u64) -> Seq<u8> {
    Seq::new(8, |i: int| ((v >> ((8 * i) as u64)) & 0xff) as u8)
}

/// The padded message: the data, 0x80, zeros, then the bit length modulo
/// 2^64 as eight little-endian bytes.
pub open spec fn md4_pad(data: Seq<u8>) -> Seq<u8> {
    data + seq![0x80u8] + Seq::new(pad_zero_count(data.len() as int) as nat, |i: int| 0u8)
        + le_bytes64(((data.len() * 8) % 0x1_0000_0000_0000_0000) as u64)
}

/// The sixteen little-endian words of block `b` of `msg`.
pub open spec fn block_words(msg: Seq<u8>, b: int) -> Seq<u32> {
    Seq::new(16, |i: int| u32_at(msg, 64 * b + 4 * i) as u32)
}

/// Chaining value after the first `n` blocks of `msg`.
pub open spec fn md4_blocks(msg: Seq<u8>, n: nat) -> Md4State
    decreases n,
{
    if n == 0 {
        md4_init()
    } else {
        md4_block(md4_blocks(msg, (n - 1) as nat), block_words(msg, n - 1))
    }
}

/// The MD4 digest of `data`, as its four chaining words.
pub open spec fn md4(data: Seq<u8>) -> Md4State {
    let m = md4_pad(data);
    md4_blocks(m, m.len() / 64)
}

fn rotate_left(v: u32, s: u32) -> (r: u32)
    requires
        0 < s < 32,
    ensures
        r == rotl(v, s),
{
    (v << s) | (v >> (32 - s))
}

fn mix_f(x: u32, y: u32, z: u32) -> (r: u32)
    ensures
        r == md4_f(x, y, z),
{
    (x & y) | (!x & z)
}

fn mix_g(x: u32, y: u32, z: u32) -> (r: u32)
    ensures
        r == md4_g(x, y, z),
{
    (x & y) | (x & z) | (y & z)
}

fn mix_h(x: u32, y: u32, z: u32) -> (r: u32)
    ensures
        r == md4_h(x, y, z),
{
    x ^ y ^ z
}

fn shift_of(k: usize) -> (r: u32)
    requires
        k < 48,
    ensures
        r == shift_amount(k as int),
        0 < r < 32,
{
    let j = k % 4;
    if k < 16 {
        if j == 0 { 3 } else if j == 1 { 7 } else if j == 2 { 11 } else { 19 }
    } else if k < 32 {
        if j == 0 { 3 } else if j == 1 { 5 } else if j == 2 { 9 } else { 13 }
    } else {
        if j == 0 { 3 } else if j == 1 { 9 } else if j == 2 { 11 } else { 15 }
    }
}

fn word_of(k: usize) -> (r: usize)
    requires
        k < 48,
    ensures
        r == word_index(k as int),
        r < 16,
{
    if k < 16 {
        k
    } else if k < 32 {
        let i = k - 16;
        (i % 4) * 4 + i / 4
    } else {
        let i = k - 32;
        (i % 2) * 8 + ((i / 2) % 2) * 4 + ((i / 4) % 2) * 2 + i / 8
    }
}

/// Run the 48 steps of one block on chaining value `st`.
fn md4_compress(st: Md4State, x: &Vec<u32>) -> (r: Md4State)
    requires
        x@.len() == 16,
    ensures
        r == md4_block(st, x@),
{
    let (mut a, mut b, mut c, mut d) = st;
    let mut k: usize = 0;
    while k < 48
        invariant
            k <= 48,
            x@.len() == 16,
            (a, b, c, d) == md4_steps(st, x@, k as nat),
        decreases 48 - k,
    {
        let mix = if k < 16 {
            mix_f(b, c, d)
        } else if k < 32 {
            mix_g(b, c, d)
        } else {
            mix_h(b, c, d)
        };
        let konst: u32 = if k < 16 {
            0
        } else if k < 32 {
            0x5a82_7999
        } else {
            0x6ed9_eba1
        };
        let v = a.wrapping_add(mix).wrapping_add(x[word_of(k)]).wrapping_add(konst);
        let na = rotate_left(v, shift_of(k));
        let t = d;
        d = c;
        c = b;
        b = na;
        a = t;
        k = k + 1;
    }
    (st.0.wrapping_add(a), st.1.wrapping_add(b), st.2.wrapping_add(c), st.3.wrapping_add(d))
}

proof fn lemma_pad_len(n: int)
    requires
        n >= 0,
    ensures
        0 <= pad_zero_count(n) < 64,
        (n + 1 + pad_zero_count(n) + 8) % 64 == 0,
{
}

/// Compute the MD4 digest of `data`, returning the four state words.
pub fn md4_digest(data: &[u8]) -> (r: [u32; 4])
    requires
        data@.len() + 72 <= usize::MAX,
    ensures
        r@ == seq![md4(data@).0, md4(data@).1, md4(data@).2, md4(data@).3],
{
    let n = data.len();
    let bit_len: u64 = (n as u64).wrapping_mul(8);
    let mut msg: Vec<u8> = Vec::new();
    let mut i: usize = 0;
    while i < n
        invariant
            i <= n,
            n == data@.len(),
            msg@ == data@.take(i as int),
        decreases n - i,
    {
        msg.push(data[i]);
        i = i + 1;
    }
    msg.push(0x80);
    let zeros: usize = (119 - n % 64) % 64;
    proof {
        lemma_pad_len(n as int);
        assert(zeros == pad_zero_count(n as int));
    }
    let mut z: usize = 0;
    while z < zeros
        invariant
            z <= zeros,
            zeros < 64,
            n == data@.len(),
            msg@ == data@ + seq![0x80u8] + Seq::new(z as nat, |j: int| 0u8),
        decreases zeros - z,
    {
        msg.push(0);
        z = z + 1;
        assert(msg@ =~= data@ + seq![0x80u8] + Seq::new(z as nat, |j: int| 0u8));
    }
    let mut j: u64 = 0;
    while j < 8
        invariant
            j <= 8,
            msg@ == data@ + seq![0x80u8] + Seq::new(zeros as nat, |q: int| 0u8)
                + le_bytes64(bit_len).take(j as int),
        decreases 8 - j,
    {
        msg.push(#[verifier::truncate] (((bit_len >> (8 * j)) & 0xff) as u8));
        j = j + 1;
        assert(msg@ =~= data@ + seq![0x80u8] + Seq::new(zeros as nat, |q: int| 0u8)
            + le_bytes64(bit_len).take(j as int));
    }
    assert(bit_len == ((data@.len() * 8) % 0x1_0000_0000_0000_0000) as u64);
    assert(msg@ =~= md4_pad(data@));
    let mlen = msg.len();
    let nblocks = mlen / 64;
    let mut st: Md4State = (0x6745_2301, 0xefcd_ab89, 0x98ba_dcfe, 0x1032_5476);
    let mut blk: usize = 0;
    while blk < nblocks
        invariant
            blk <= nblocks,
            mlen == msg@.len(),
            nblocks == msg@.len() / 64,
            msg@ == md4_pad(data@),
            st == md4_blocks(msg@, blk as nat),
        decreases nblocks - blk,
    {
        let mut x: Vec<u32> = Vec::new();
        let mut w: usize = 0;
        while w < 16
            invariant
                w <= 16,
                blk < nblocks,
                mlen == msg@.len(),
                nblocks == msg@.len() / 64,
                x@ == block_words(msg@, blk as int).take(w as int),
            decreases 16 - w,
        {
            assert(64 * blk + 64 <= msg@.len()) by (nonlinear_arith)
                requires
                    blk < nblocks,
                    nblocks == msg@.len() / 64,
            ;
            let word = read_u32(msg.as_slice(), 64 * blk + 4 * w);
            x.push(word);
            w = w + 1;
            assert(x@ =~= block_words(msg@, blk as int).take(w as int));
        }
        assert(x@ =~= block_words(msg@, blk as int));
        st = md4_compress(st, &x);
        blk = blk + 1;
    }
    [st.0, st.1, st.2, st.3]
}

/// `Com_BlockChecksum`: the MD4 digest of `data` with its four words XORed
/// together.
pub fn com_block_checksum(data: &[u8]) -> (r: u32)
    requires
        data@.len() + 72 <= usize::MAX,
    ensures
        r == md4(data@).0 ^ md4(data@).1 ^ md4(data@).2 ^ md4(data@).3,
{
    let digest = md4_digest(data);
    digest[0] ^ digest[1] ^ digest[2] ^ digest[3]
}

} // verus!


verus! {

// ---------------------------------------------------------------------------
// BSP file layout
// ---------------------------------------------------------------------------

/// "IBSP" read as a little-endian word.
pub const IDBSPHEADER: u32 = 0x5053_4249;

/// The BSP version this engine reads.
pub const BSPVERSION: u32 = 38;

pub const LUMP_PLANES: usize = 1;
pub const LUMP_NODES: usize = 4;
pub const LUMP_TEXINFO: usize = 5;
pub const LUMP_LEAFS: usize = 8;
pub const LUMP_LEAFBRUSHES: usize = 10;
pub const LUMP_MODELS: usize = 13;
pub const LUMP_BRUSHES: usize = 14;
pub const LUMP_BRUSHSIDES: usize = 15;
pub const LUMP_AREAS: usize = 17;
pub const LUMP_AREAPORTALS: usize = 18;
pub const HEADER_LUMPS: usize = 19;

pub const MAX_MAP_MODELS: usize = 1024;
pub const MAX_MAP_BRUSHES: usize = 8192;
pub const MAX_MAP_TEXINFO: usize = 8192;
pub const MAX_MAP_AREAS: usize = 256;
pub const MAX_MAP_AREAPORTALS: usize = 1024;
pub const MAX_MAP_PLANES: usize = 65536;
pub const MAX_MAP_NODES: usize = 65536;
pub const MAX_MAP_BRUSHSIDES: usize = 65536;
pub const MAX_MAP_LEAFS: usize = 65536;
pub const MAX_MAP_LEAFBRUSHES: usize = 65536;

pub const CONTENTS_SOLID: i32 = 1;
pub const CONTENTS_MONSTER: i32 = 0x0200_0000;

pub const DNODE_SIZE: usize = 28;
pub const DLEAF_SIZE: usize = 28;
pub const DBRUSH_SIZE: usize = 12;
pub const DBRUSHSIDE_SIZE: usize = 4;
pub const TEXINFO_SIZE: usize = 76;
pub const DAREA_SIZE: usize = 8;
pub const DAREAPORTAL_SIZE: usize = 8;

// ---------------------------------------------------------------------------
// Collision structures
// ---------------------------------------------------------------------------

/// BSP internal node.
#[derive(Debug, Clone)]
pub struct CNode {
    pub plane_idx: usize,
    pub children: [i32; 2],
}

/// BSP leaf (contains brushes for collision).
#[derive(Debug, Clone, Default)]
pub struct CLeaf {
    pub contents: i32,
    pub cluster: i16,
    pub area: i16,
    pub first_leaf_brush: u16,
    pub num_leaf_brushes: u16,
}

/// Collision brush (convex solid).
#[derive(Debug, Clone, Default)]
pub struct CBrush {
    pub contents: i32,
    pub num_sides: i32,
    pub first_brush_side: i32,
    pub check_count: i32,
}

/// One face of a brush.
#[derive(Debug, Clone)]
pub struct CBrushSide {
    pub plane_idx: usize,
    /// Index into the surfaces; -1 for no surface.
    pub surface_idx: i32,
}

/// Surface info loaded from the texinfo lump.
#[derive(Debug, Clone, Default)]
pub struct MapSurface {
    pub name: String,
    pub flags: i32,
    pub value: i32,
}

/// Area for area-portal connectivity.
#[derive(Debug, Clone, Default)]
pub struct CArea {
    pub num_area_portals: i32,
    pub first_area_portal: i32,
    pub flood_num: i32,
    pub flood_valid: i32,
}

/// Area portal.
#[derive(Debug, Clone, Default)]
pub struct CAreaPortal {
    pub portal_num: i32,
    pub other_area: i32,
}

// ---------------------------------------------------------------------------
// Reading lumps
// ---------------------------------------------------------------------------

/// The signed 32-bit value at `off`.
pub open spec fn i32_at(data: Seq<u8>, off: int) -> i32 {
    signed32(u32_at(data, off)) as i32
}

/// The signed 16-bit value at `off`.
pub open spec fn i16_at(data: Seq<u8>, off: int) -> i16 {
    signed16(u16_at(data, off)) as i16
}

/// Offsets within the lump stay addressable.
pub open spec fn lump_addressable(ofs: u32, len: u32) -> bool {
    ofs + len + 128 <= usize::MAX
}

/// Record `i` of a lump at `ofs` with records of `stride` bytes is cut
/// short: its first `need` bytes do not all lie within `len` bytes.
pub open spec fn record_short(len: int, ofs: int, stride: int, need: int, i: int) -> bool {
    ofs + stride * i + need > len
}

/// Every one of `count` records has its first `need` bytes within `len`.
pub open spec fn all_records_fit(len: int, ofs: int, stride: int, need: int, count: int) -> bool {
    forall|i: int| 0 <= i < count ==> !record_short(len, ofs, stride, need, i)
}

/// Record `k` is the first record cut short.
pub open spec fn first_short(len: int, ofs: int, stride: int, need: int, count: int, k: int) -> bool {
    &&& 0 <= k < count
    &&& record_short(len, ofs, stride, need, k)
    &&& forall|j: int| 0 <= j < k ==> !record_short(len, ofs, stride, need, j)
}

/// The node stored at `base`.
pub open spec fn node_at(data: Seq<u8>, base: int) -> CNode {
    CNode {
        plane_idx: i32_at(data, base) as usize,
        children: [i32_at(data, base + 4), i32_at(data, base + 8)],
    }
}

/// The first `n` nodes of a lump at `ofs`.
pub open spec fn node_records(data: Seq<u8>, ofs: int, n: nat) -> Seq<CNode> {
    Seq::new(n, |i: int| node_at(data, ofs + 28 * i))
}

/// Build the message `name` as a drop error.
fn drop_msg(text: &str) -> (r: Q2Error)
    ensures
        r matches Q2Error::Drop(m) && m@ == text@,
{
    Q2Error::Drop(string_from_chars(str_chars(text).as_slice()))
}

/// What loading the node lump must give.
pub open spec fn nodes_result(data: Seq<u8>, ofs: u32, len: u32, r: Q2Result<Vec<CNode>>) -> bool {
    let count = len / 28;
    if len % 28 != 0 {
        is_drop(r, "Mod_LoadNodes: funny lump size"@)
    } else if count < 1 {
        is_drop(r, "Map has no nodes"@)
    } else if count > 65536 {
        is_drop(r, "Map has too many nodes"@)
    } else if all_records_fit(data.len() as int, ofs as int, 28, 12, count as int) {
        r matches Ok(v) && v@ == node_records(data, ofs as int, count as nat)
    } else {
        is_drop(r, "i32 read out of bounds"@)
    }
}

/// Load the node lump.
pub fn load_nodes(data: &[u8], lump: (u32, u32)) -> (r: Q2Result<Vec<CNode>>)
    requires
        lump_addressable(lump.0, lump.1),
    ensures
        nodes_result(data@, lump.0, lump.1, r),
{
    let ofs = lump.0 as usize;
    let len = lump.1 as usize;
    if len % DNODE_SIZE != 0 {
        return Err(drop_msg("Mod_LoadNodes: funny lump size"));
    }
    let count = len / DNODE_SIZE;
    if count < 1 {
        return Err(drop_msg("Map has no nodes"));
    }
    if count > MAX_MAP_NODES {
        return Err(drop_msg("Map has too many nodes"));
    }
    let mut v: Vec<CNode> = Vec::new();
    let mut i: usize = 0;
    while i < count
        invariant
            ofs == lump.0,
            len == lump.1,
            lump_addressable(lump.0, lump.1),
            len % 28 == 0,
            count == len / 28,
            1 <= count <= 65536,
            0 <= i <= count,
            v@ == node_records(data@, ofs as int, i as nat),
            forall|j: int| 0 <= j < i ==> !record_short(data@.len() as int, ofs as int, 28, 12, j),
        decreases count - i,
    {
        let base = ofs + DNODE_SIZE * i;
        assert(base == ofs + 28 * i);
        let ghost short = record_short(data@.len() as int, ofs as int, 28, 12, i as int);
        let planenum = match try_read_i32(data, base) {
            Ok(x) => x,
            Err(e) => {
                assert(short);
                return Err(e);
            },
        };
        let child0 = match try_read_i32(data, base + 4) {
            Ok(x) => x,
            Err(e) => {
                assert(short);
                return Err(e);
            },
        };
        let child1 = match try_read_i32(data, base + 8) {
            Ok(x) => x,
            Err(e) => {
                assert(short);
                return Err(e);
            },
        };
        v.push(CNode { plane_idx: #[verifier::truncate] (planenum as usize), children: [child0, child1] });
        assert(v@ =~= node_records(data@, ofs as int, (i + 1) as nat));
        i = i + 1;
    }
    Ok(v)
}

// --- leafs ---

/// The leaf stored at `base`.
pub open spec fn leaf_at(data: Seq<u8>, base: int) -> CLeaf {
    CLeaf {
        contents: i32_at(data, base),
        cluster: i16_at(data, base + 4),
        area: i16_at(data, base + 6),
        first_leaf_brush: u16_at(data, base + 24) as u16,
        num_leaf_brushes: u16_at(data, base + 26) as u16,
    }
}

/// The first `n` leafs of a lump at `ofs`.
pub open spec fn leaf_records(data: Seq<u8>, ofs: int, n: nat) -> Seq<CLeaf> {
    Seq::new(n, |i: int| leaf_at(data, ofs + 28 * i))
}

/// The error of the first read that fails in a leaf cut short at `base`.
pub open spec fn leaf_read_error(len: int, base: int) -> Seq<char> {
    if len < base + 4 {
        "i32 read out of bounds"@
    } else if len < base + 8 {
        "i16 read out of bounds"@
    } else {
        "u16 read out of bounds"@
    }
}

/// `e` is the first leaf after leaf 0 that is empty.
pub open spec fn is_first_empty(leafs: Seq<CLeaf>, e: int) -> bool {
    &&& 1 <= e < leafs.len()
    &&& leafs[e].contents == 0
    &&& forall|j: int| 1 <= j < e ==> leafs[j].contents != 0
}

/// What loading the leaf lump must give: the leafs and the first empty
/// leaf.
pub open spec fn leafs_result(data: Seq<u8>, ofs: u32, len: u32, r: Q2Result<(Vec<CLeaf>, i32)>) -> bool {
    let count = len / 28;
    let dlen = data.len() as int;
    if len % 28 != 0 {
        is_drop(r, "Mod_LoadLeafs: funny lump size"@)
    } else if count < 1 {
        is_drop(r, "Map with no leafs"@)
    } else if count > 65536 {
        is_drop(r, "Map has too many leafs"@)
    } else if all_records_fit(dlen, ofs as int, 28, 28, count as int) {
        let ls = leaf_records(data, ofs as int, count as nat);
        if ls[0].contents != CONTENTS_SOLID {
            is_drop(r, "Map leaf 0 is not CONTENTS_SOLID"@)
        } else if forall|j: int| 1 <= j < ls.len() ==> ls[j].contents != 0 {
            is_drop(r, "Map does not have an empty leaf"@)
        } else {
            r matches Ok((v, e)) && v@ == ls && is_first_empty(ls, e as int)
        }
    } else {
        exists|k: int|
            first_short(dlen, ofs as int, 28, 28, count as int, k) && is_drop(
                r,
                leaf_read_error(dlen, ofs + 28 * k),
            )
    }
}

/// Load the leaf lump; also finds the first empty leaf.
pub fn load_leafs(data: &[u8], lump: (u32, u32)) -> (r: Q2Result<(Vec<CLeaf>, i32)>)
    requires
        lump_addressable(lump.0, lump.1),
    ensures
        leafs_result(data@, lump.0, lump.1, r),
{
    let ofs = lump.0 as usize;
    let len = lump.1 as usize;
    if len % DLEAF_SIZE != 0 {
        return Err(drop_msg("Mod_LoadLeafs: funny lump size"));
    }
    let count = len / DLEAF_SIZE;
    if count < 1 {
        return Err(drop_msg("Map with no leafs"));
    }
    if count > MAX_MAP_LEAFS {
        return Err(drop_msg("Map has too many leafs"));
    }
    let ghost dlen = data@.len() as int;
    let mut v: Vec<CLeaf> = Vec::new();
    let mut i: usize = 0;
    while i < count
        invariant
            ofs == lump.0,
            len == lump.1,
            dlen == data@.len(),
            lump_addressable(lump.0, lump.1),
            len % 28 == 0,
            count == len / 28,
            1 <= count <= 65536,
            0 <= i <= count,
            v@ == leaf_records(data@, ofs as int, i as nat),
            forall|j: int| 0 <= j < i ==> !record_short(dlen, ofs as int, 28, 28, j),
        decreases count - i,
    {
        let base = ofs + DLEAF_SIZE * i;
        assert(base == ofs + 28 * i);
        let ghost k = i as int;
        let contents = match try_read_i32(data, base) {
            Ok(x) => x,
            Err(e) => {
                assert(first_short(dlen, ofs as int, 28, 28, count as int, k));
                return Err(e);
            },
        };
        let cluster = match try_read_i16(data, base + 4) {
            Ok(x) => x,
            Err(e) => {
                assert(first_short(dlen, ofs as int, 28, 28, count as int, k));
                return Err(e);
            },
        };
        let area = match try_read_i16(data, base + 6) {
            Ok(x) => x,
            Err(e) => {
                assert(first_short(dlen, ofs as int, 28, 28, count as int, k));
                return Err(e);
            },
        };
        let first_leaf_brush = match try_read_u16(data, base + 24) {
            Ok(x) => x,
            Err(e) => {
                assert(first_short(dlen, ofs as int, 28, 28, count as int, k));
                return Err(e);
            },
        };
        let num_leaf_brushes = match try_read_u16(data, base + 26) {
            Ok(x) => x,
            Err(e) => {
                assert(first_short(dlen, ofs as int, 28, 28, count as int, k));
                return Err(e);
            },
        };
        v.push(CLeaf { contents, cluster, area, first_leaf_brush, num_leaf_brushes });
        assert(v@ =~= leaf_records(data@, ofs as int, (i + 1) as nat));
        i = i + 1;
    }
    if v[0].contents != CONTENTS_SOLID {
        return Err(drop_msg("Map leaf 0 is not CONTENTS_SOLID"));
    }
    let mut e: usize = 1;
    while e < v.len()
        invariant
            1 <= e <= v@.len(),
            v@.len() == count,
            ofs == lump.0,
            len == lump.1,
            dlen == data@.len(),
            len % 28 == 0,
            count == len / 28,
            1 <= count <= 65536,
            v@ == leaf_records(data@, ofs as int, count as nat),
            all_records_fit(dlen, ofs as int, 28, 28, count as int),
            v@[0].contents == CONTENTS_SOLID,
            forall|j: int| 1 <= j < e ==> v@[j].contents != 0,
        decreases v@.len() - e,
    {
        if v[e].contents == 0 {
            return Ok((v, e as i32));
        }
        e = e + 1;
    }
    Err(drop_msg("Map does not have an empty leaf"))
}

// --- leaf brushes ---

/// The first `n` leaf-brush indices of a lump at `ofs`.
pub open spec fn leaf_brush_records(data: Seq<u8>, ofs: int, n: nat) -> Seq<u16> {
    Seq::new(n, |i: int| u16_at(data, ofs + 2 * i) as u16)
}

/// What loading the leaf-brush lump must give.
pub open spec fn leaf_brushes_result(data: Seq<u8>, ofs: u32, len: u32, r: Q2Result<Vec<u16>>) -> bool {
    let count = len / 2;
    if len % 2 != 0 {
        is_drop(r, "Mod_LoadLeafBrushes: funny lump size"@)
    } else if count < 1 {
        is_drop(r, "Map with no leaf brushes"@)
    } else if count > 65536 {
        is_drop(r, "Map has too many leafbrushes"@)
    } else if all_records_fit(data.len() as int, ofs as int, 2, 2, count as int) {
        r matches Ok(v) && v@ == leaf_brush_records(data, ofs as int, count as nat)
    } else {
        is_drop(r, "u16 read out of bounds"@)
    }
}

/// Load the leaf-brush lump.
pub fn load_leaf_brushes(data: &[u8], lump: (u32, u32)) -> (r: Q2Result<Vec<u16>>)
    requires
        lump_addressable(lump.0, lump.1),
    ensures
        leaf_brushes_result(data@, lump.0, lump.1, r),
{
    let ofs = lump.0 as usize;
    let len = lump.1 as usize;
    if len % 2 != 0 {
        return Err(drop_msg("Mod_LoadLeafBrushes: funny lump size"));
    }
    let count = len / 2;
    if count < 1 {
        return Err(drop_msg("Map with no leaf brushes"));
    }
    if count > MAX_MAP_LEAFBRUSHES {
        return Err(drop_msg("Map has too many leafbrushes"));
    }
    let mut v: Vec<u16> = Vec::new();
    let mut i: usize = 0;
    while i < count
        invariant
            ofs == lump.0,
            len == lump.1,
            lump_addressable(lump.0, lump.1),
            len % 2 == 0,
            count == len / 2,
            1 <= count <= 65536,
            0 <= i <= count,
            v@ == leaf_brush_records(data@, ofs as int, i as nat),
            forall|j: int| 0 <= j < i ==> !record_short(data@.len() as int, ofs as int, 2, 2, j),
        decreases count - i,
    {
        let base = ofs + 2 * i;
        let x = match try_read_u16(data, base) {
            Ok(x) => x,
            Err(e) => {
                assert(record_short(data@.len() as int, ofs as int, 2, 2, i as int));
                return Err(e);
            },
        };
        v.push(x);
        assert(v@ =~= leaf_brush_records(data@, ofs as int, (i + 1) as nat));
        i = i + 1;
    }
    Ok(v)
}

// --- brushes ---

/// The brush stored at `base`.
pub open spec fn brush_at(data: Seq<u8>, base: int) -> CBrush {
    CBrush {
        first_brush_side: i32_at(data, base),
        num_sides: i32_at(data, base + 4),
        contents: i32_at(data, base + 8),
        check_count: 0,
    }
}

/// The first `n` brushes of a lump at `ofs`.
pub open spec fn brush_records(data: Seq<u8>, ofs: int, n: nat) -> Seq<CBrush> {
    Seq::new(n, |i: int| brush_at(data, ofs + 12 * i))
}

/// What loading the brush lump must give.
pub open spec fn brushes_result(data: Seq<u8>, ofs: u32, len: u32, r: Q2Result<Vec<CBrush>>) -> bool {
    let count = len / 12;
    if len % 12 != 0 {
        is_drop(r, "Mod_LoadBrushes: funny lump size"@)
    } else if count > 8192 {
        is_drop(r, "Map has too many brushes"@)
    } else if all_records_fit(data.len() as int, ofs as int, 12, 12, count as int) {
        r matches Ok(v) && v@ == brush_records(data, ofs as int, count as nat)
    } else {
        is_drop(r, "i32 read out of bounds"@)
    }
}

/// Load the brush lump.
pub fn load_brushes(data: &[u8], lump: (u32, u32)) -> (r: Q2Result<Vec<CBrush>>)
    requires
        lump_addressable(lump.0, lump.1),
    ensures
        brushes_result(data@, lump.0, lump.1, r),
{
    let ofs = lump.0 as usize;
    let len = lump.1 as usize;
    if len % DBRUSH_SIZE != 0 {
        return Err(drop_msg("Mod_LoadBrushes: funny lump size"));
    }
    let count = len / DBRUSH_SIZE;
    if count > MAX_MAP_BRUSHES {
        return Err(drop_msg("Map has too many brushes"));
    }
    let mut v: Vec<CBrush> = Vec::new();
    let mut i: usize = 0;
    while i < count
        invariant
            ofs == lump.0,
            len == lump.1,
            lump_addressable(lump.0, lump.1),
            len % 12 == 0,
            count == len / 12,
            count <= 8192,
            0 <= i <= count,
            v@ == brush_records(data@, ofs as int, i as nat),
            forall|j: int| 0 <= j < i ==> !record_short(data@.len() as int, ofs as int, 12, 12, j),
        decreases count - i,
    {
        let base = ofs + DBRUSH_SIZE * i;
        assert(base == ofs + 12 * i);
        let ghost short = record_short(data@.len() as int, ofs as int, 12, 12, i as int);
        let first_brush_side = match try_read_i32(data, base) {
            Ok(x) => x,
            Err(e) => {
                assert(short);
                return Err(e);
            },
        };
        let num_sides = match try_read_i32(data, base + 4) {
            Ok(x) => x,
            Err(e) => {
                assert(short);
                return Err(e);
            },
        };
        let contents = match try_read_i32(data, base + 8) {
            Ok(x) => x,
            Err(e) => {
                assert(short);
                return Err(e);
            },
        };
        v.push(CBrush { contents, num_sides, first_brush_side, check_count: 0 });
        assert(v@ =~= brush_records(data@, ofs as int, (i + 1) as nat));
        i = i + 1;
    }
    Ok(v)
}

// --- brush sides ---

/// The brush side stored at `base`.
pub open spec fn brush_side_at(data: Seq<u8>, base: int) -> CBrushSide {
    CBrushSide { plane_idx: u16_at(data, base) as usize, surface_idx: i16_at(data, base + 2) as i32 }
}

/// The first `n` brush sides of a lump at `ofs`.
pub open spec fn brush_side_records(data: Seq<u8>, ofs: int, n: nat) -> Seq<CBrushSide> {
    Seq::new(n, |i: int| brush_side_at(data, ofs + 4 * i))
}

/// Brush side `i` is cut short or names a surface past the surface count.
pub open spec fn bad_side(data: Seq<u8>, ofs: int, num_texinfo: i32, i: int) -> bool {
    record_short(data.len() as int, ofs, 4, 4, i) || i16_at(data, ofs + 4 * i + 2) >= num_texinfo
}

/// The error of the first bad brush side, at `base`.
pub open spec fn side_error(len: int, base: int) -> Seq<char> {
    if len < base + 2 {
        "u16 read out of bounds"@
    } else if len < base + 4 {
        "i16 read out of bounds"@
    } else {
        "Bad brushside texinfo"@
    }
}

/// What loading the brush-side lump must give, with `num_texinfo` surfaces.
pub open spec fn brush_sides_result(
    data: Seq<u8>,
    ofs: u32,
    len: u32,
    num_texinfo: i32,
    r: Q2Result<Vec<CBrushSide>>,
) -> bool {
    let count = len / 4;
    if len % 4 != 0 {
        is_drop(r, "Mod_LoadBrushSides: funny lump size"@)
    } else if count > 65536 {
        is_drop(r, "Map has too many brush sides"@)
    } else if forall|i: int| 0 <= i < count ==> !bad_side(data, ofs as int, num_texinfo, i) {
        r matches Ok(v) && v@ == brush_side_records(data, ofs as int, count as nat)
    } else {
        exists|k: int|
            0 <= k < count && bad_side(data, ofs as int, num_texinfo, k) && (forall|j: int|
                0 <= j < k ==> !bad_side(data, ofs as int, num_texinfo, j)) && is_drop(
                r,
                side_error(data.len() as int, ofs + 4 * k),
            )
    }
}

/// Load the brush-side lump; every side must name one of the
/// `num_texinfo` surfaces.
pub fn load_brush_sides(data: &[u8], lump: (u32, u32), num_texinfo: i32) -> (r: Q2Result<Vec<CBrushSide>>)
    requires
        lump_addressable(lump.0, lump.1),
    ensures
        brush_sides_result(data@, lump.0, lump.1, num_texinfo, r),
{
    let ofs = lump.0 as usize;
    let len = lump.1 as usize;
    if len % DBRUSHSIDE_SIZE != 0 {
        return Err(drop_msg("Mod_LoadBrushSides: funny lump size"));
    }
    let count = len / DBRUSHSIDE_SIZE;
    if count > MAX_MAP_BRUSHSIDES {
        return Err(drop_msg("Map has too many brush sides"));
    }
    let mut v: Vec<CBrushSide> = Vec::new();
    let mut i: usize = 0;
    while i < count
        invariant
            ofs == lump.0,
            len == lump.1,
            lump_addressable(lump.0, lump.1),
            len % 4 == 0,
            count == len / 4,
            count <= 65536,
            0 <= i <= count,
            v@ == brush_side_records(data@, ofs as int, i as nat),
            forall|j: int| 0 <= j < i ==> !bad_side(data@, ofs as int, num_texinfo, j),
        decreases count - i,
    {
        let base = ofs + DBRUSHSIDE_SIZE * i;
        assert(base == ofs + 4 * i);
        let ghost k = i as int;
        let planenum = match try_read_u16(data, base) {
            Ok(x) => x,
            Err(e) => {
                assert(bad_side(data@, ofs as int, num_texinfo, k));
                return Err(e);
            },
        };
        let texinfo = match try_read_i16(data, base + 2) {
            Ok(x) => x as i32,
            Err(e) => {
                assert(bad_side(data@, ofs as int, num_texinfo, k));
                return Err(e);
            },
        };
        if texinfo >= num_texinfo {
            assert(bad_side(data@, ofs as int, num_texinfo, k));
            return Err(drop_msg("Bad brushside texinfo"));
        }
        v.push(CBrushSide { plane_idx: planenum as usize, surface_idx: texinfo });
        assert(v@ =~= brush_side_records(data@, ofs as int, (i + 1) as nat));
        i = i + 1;
    }
    Ok(v)
}

// --- surfaces ---

/// The name stored in the texinfo record at `base`.
pub open spec fn surface_name(data: Seq<u8>, base: int) -> Seq<char> {
    let raw = data.subrange(base + 40, base + 72);
    utf8_lossy(raw.take(name_field_len(raw)))
}

/// The surface (name, flags, value) stored at `base`.
pub open spec fn surface_at(data: Seq<u8>, base: int) -> (Seq<char>, i32, i32) {
    (surface_name(data, base), i32_at(data, base + 32), i32_at(data, base + 36))
}

/// The first `n` surfaces of a lump at `ofs`.
pub open spec fn surface_records(data: Seq<u8>, ofs: int, n: nat) -> Seq<(Seq<char>, i32, i32)> {
    Seq::new(n, |i: int| surface_at(data, ofs + 76 * i))
}

/// The view of loaded surfaces.
pub open spec fn surfaces_view(v: Seq<MapSurface>) -> Seq<(Seq<char>, i32, i32)> {
    v.map_values(|s: MapSurface| (s.name@, s.flags, s.value))
}

/// Each texinfo record whose flags and value can be read also holds its
/// whole name field.
pub open spec fn surface_names_in_bounds(data: Seq<u8>, ofs: u32, len: u32) -> bool {
    forall|i: int|
        0 <= i < len / 76 && !#[trigger] record_short(data.len() as int, ofs as int, 76, 40, i)
            ==> !record_short(data.len() as int, ofs as int, 76, 72, i)
}

/// What loading the texinfo lump must give.
pub open spec fn surfaces_result(data: Seq<u8>, ofs: u32, len: u32, r: Q2Result<Vec<MapSurface>>) -> bool {
    let count = len / 76;
    if len % 76 != 0 {
        is_drop(r, "Mod_LoadSurfaces: funny lump size"@)
    } else if count < 1 {
        is_drop(r, "Map with no surfaces"@)
    } else if count > 8192 {
        is_drop(r, "Map has too many surfaces"@)
    } else if all_records_fit(data.len() as int, ofs as int, 76, 40, count as int) {
        r matches Ok(v) && surfaces_view(v@) == surface_records(data, ofs as int, count as nat)
    } else {
        is_drop(r, "i32 read out of bounds"@)
    }
}

fn first_nul(raw: &[u8]) -> (k: usize)
    ensures
        is_name_end(raw@, k as int),
{
    let mut k: usize = 0;
    while k < raw.len() && raw[k] != 0
        invariant
            0 <= k <= raw@.len(),
            forall|j: int| 0 <= j < k ==> raw@[j] != 0,
        decreases raw@.len() - k,
    {
        k = k + 1;
    }
    k
}

proof fn lemma_name_end_unique(raw: Seq<u8>, k: int)
    requires
        is_name_end(raw, k),
    ensures
        name_field_len(raw) == k,
{
    let c = name_field_len(raw);
    assert(is_name_end(raw, c));
    if c < k {
        assert(raw[c] != 0);
    } else if c > k {
        assert(raw[k] != 0);
    }
}

/// Load the texinfo lump as surfaces.
pub fn load_surfaces(data: &[u8], lump: (u32, u32)) -> (r: Q2Result<Vec<MapSurface>>)
    requires
        lump_addressable(lump.0, lump.1),
        surface_names_in_bounds(data@, lump.0, lump.1),
    ensures
        surfaces_result(data@, lump.0, lump.1, r),
{
    let ofs = lump.0 as usize;
    let len = lump.1 as usize;
    if len % TEXINFO_SIZE != 0 {
        return Err(drop_msg("Mod_LoadSurfaces: funny lump size"));
    }
    let count = len / TEXINFO_SIZE;
    if count < 1 {
        return Err(drop_msg("Map with no surfaces"));
    }
    if count > MAX_MAP_TEXINFO {
        return Err(drop_msg("Map has too many surfaces"));
    }
    let mut v: Vec<MapSurface> = Vec::new();
    let mut i: usize = 0;
    while i < count
        invariant
            ofs == lump.0,
            len == lump.1,
            lump_addressable(lump.0, lump.1),
            surface_names_in_bounds(data@, lump.0, lump.1),
            len % 76 == 0,
            count == len / 76,
            1 <= count <= 8192,
            0 <= i <= count,
            surfaces_view(v@) == surface_records(data@, ofs as int, i as nat),
            forall|j: int| 0 <= j < i ==> !record_short(data@.len() as int, ofs as int, 76, 40, j),
        decreases count - i,
    {
        let base = ofs + TEXINFO_SIZE * i;
        assert(base == ofs + 76 * i);
        let ghost short = record_short(data@.len() as int, ofs as int, 76, 40, i as int);
        let flags = match try_read_i32(data, base + 32) {
            Ok(x) => x,
            Err(e) => {
                assert(short);
                return Err(e);
            },
        };
        let value = match try_read_i32(data, base + 36) {
            Ok(x) => x,
            Err(e) => {
                assert(short);
                return Err(e);
            },
        };
        let name_start = base + 40;
        let name_end = name_start + 32;
        let field = &data[name_start..name_end];
        let k = first_nul(field);
        proof {
            lemma_name_end_unique(field@, k as int);
        }
        let name_bytes = &field[0..k];
        assert(name_bytes@ =~= field@.take(k as int));
        let name = bytes_to_string_lossy(name_bytes);
        let ghost before = v@;
        v.push(MapSurface { name, flags, value });
        assert(surfaces_view(v@) =~= surface_records(data@, ofs as int, (i + 1) as nat)) by {
            assert(surfaces_view(v@) =~= surfaces_view(before).push(surface_at(data@, base as int)));
        }
        i = i + 1;
    }
    Ok(v)
}

// --- areas and area portals ---

/// The area stored at `base`.
pub open spec fn area_at(data: Seq<u8>, base: int) -> CArea {
    CArea {
        num_area_portals: i32_at(data, base),
        first_area_portal: i32_at(data, base + 4),
        flood_num: 0,
        flood_valid: 0,
    }
}

/// The first `n` areas of a lump at `ofs`.
pub open spec fn area_records(data: Seq<u8>, ofs: int, n: nat) -> Seq<CArea> {
    Seq::new(n, |i: int| area_at(data, ofs + 8 * i))
}

/// What loading the area lump must give.
pub open spec fn areas_result(data: Seq<u8>, ofs: u32, len: u32, r: Q2Result<Vec<CArea>>) -> bool {
    let count = len / 8;
    if len % 8 != 0 {
        is_drop(r, "Mod_LoadAreas: funny lump size"@)
    } else if count > 256 {
        is_drop(r, "Map has too many areas"@)
    } else if all_records_fit(data.len() as int, ofs as int, 8, 8, count as int) {
        r matches Ok(v) && v@ == area_records(data, ofs as int, count as nat)
    } else {
        is_drop(r, "i32 read out of bounds"@)
    }
}

/// Load the area lump.
pub fn load_areas(data: &[u8], lump: (u32, u32)) -> (r: Q2Result<Vec<CArea>>)
    requires
        lump_addressable(lump.0, lump.1),
    ensures
        areas_result(data@, lump.0, lump.1, r),
{
    let ofs = lump.0 as usize;
    let len = lump.1 as usize;
    if len % DAREA_SIZE != 0 {
        return Err(drop_msg("Mod_LoadAreas: funny lump size"));
    }
    let count = len / DAREA_SIZE;
    if count > MAX_MAP_AREAS {
        return Err(drop_msg("Map has too many areas"));
    }
    let mut v: Vec<CArea> = Vec::new();
    let mut i: usize = 0;
    while i < count
        invariant
            ofs == lump.0,
            len == lump.1,
            lump_addressable(lump.0, lump.1),
            len % 8 == 0,
            count == len / 8,
            count <= 256,
            0 <= i <= count,
            v@ == area_records(data@, ofs as int, i as nat),
            forall|j: int| 0 <= j < i ==> !record_short(data@.len() as int, ofs as int, 8, 8, j),
        decreases count - i,
    {
        let base = ofs + DAREA_SIZE * i;
        assert(base == ofs + 8 * i);
        let ghost short = record_short(data@.len() as int, ofs as int, 8, 8, i as int);
        let num_area_portals = match try_read_i32(data, base) {
            Ok(x) => x,
            Err(e) => {
                assert(short);
                return Err(e);
            },
        };
        let first_area_portal = match try_read_i32(data, base + 4) {
            Ok(x) => x,
            Err(e) => {
                assert(short);
                return Err(e);
            },
        };
        v.push(CArea { num_area_portals, first_area_portal, flood_num: 0, flood_valid: 0 });
        assert(v@ =~= area_records(data@, ofs as int, (i + 1) as nat));
        i = i + 1;
    }
    Ok(v)
}

/// The area portal stored at `base`.
pub open spec fn area_portal_at(data: Seq<u8>, base: int) -> CAreaPortal {
    CAreaPortal { portal_num: i32_at(data, base), other_area: i32_at(data, base + 4) }
}

/// The first `n` area portals of a lump at `ofs`.
pub open spec fn area_portal_records(data: Seq<u8>, ofs: int, n: nat) -> Seq<CAreaPortal> {
    Seq::new(n, |i: int| area_portal_at(data, ofs + 8 * i))
}

/// What loading the area-portal lump must give.
pub open spec fn area_portals_result(data: Seq<u8>, ofs: u32, len: u32, r: Q2Result<Vec<CAreaPortal>>) -> bool {
    let count = len / 8;
    if len % 8 != 0 {
        is_drop(r, "Mod_LoadAreaPortals: funny lump size"@)
    } else if count > 1024 {
        is_drop(r, "Map has too many area portals"@)
    } else if all_records_fit(data.len() as int, ofs as int, 8, 8, count as int) {
        r matches Ok(v) && v@ == area_portal_records(data, ofs as int, count as nat)
    } else {
        is_drop(r, "i32 read out of bounds"@)
    }
}

/// Load the area-portal lump.
pub fn load_area_portals(data: &[u8], lump: (u32, u32)) -> (r: Q2Result<Vec<CAreaPortal>>)
    requires
        lump_addressable(lump.0, lump.1),
    ensures
        area_portals_result(data@, lump.0, lump.1, r),
{
    let ofs = lump.0 as usize;
    let len = lump.1 as usize;
    if len % DAREAPORTAL_SIZE != 0 {
        return Err(drop_msg("Mod_LoadAreaPortals: funny lump size"));
    }
    let count = len / DAREAPORTAL_SIZE;
    if count > MAX_MAP_AREAPORTALS {
        return Err(drop_msg("Map has too many area portals"));
    }
    let mut v: Vec<CAreaPortal> = Vec::new();
    let mut i: usize = 0;
    while i < count
        invariant
            ofs == lump.0,
            len == lump.1,
            lump_addressable(lump.0, lump.1),
            len % 8 == 0,
            count == len / 8,
            count <= 1024,
            0 <= i <= count,
            v@ == area_portal_records(data@, ofs as int, i as nat),
            forall|j: int| 0 <= j < i ==> !record_short(data@.len() as int, ofs as int, 8, 8, j),
        decreases count - i,
    {
        let base = ofs + DAREAPORTAL_SIZE * i;
        assert(base == ofs + 8 * i);
        let ghost short = record_short(data@.len() as int, ofs as int, 8, 8, i as int);
        let portal_num = match try_read_i32(data, base) {
            Ok(x) => x,
            Err(e) => {
                assert(short);
                return Err(e);
            },
        };
        let other_area = match try_read_i32(data, base + 4) {
            Ok(x) => x,
            Err(e) => {
                assert(short);
                return Err(e);
            },
        };
        v.push(CAreaPortal { portal_num, other_area });
        assert(v@ =~= area_portal_records(data@, ofs as int, (i + 1) as nat));
        i = i + 1;
    }
    Ok(v)
}

// --- header ---

/// The lump directory: (offset, length) of each of the 19 lumps.
pub open spec fn lump_directory(data: Seq<u8>) -> Seq<(u32, u32)> {
    Seq::new(19, |i: int| (u32_at(data, 8 + 8 * i) as u32, u32_at(data, 12 + 8 * i) as u32))
}

/// What reading the BSP header must give.
pub open spec fn header_result(data: Seq<u8>, r: Q2Result<Vec<(u32, u32)>>) -> bool {
    let ident = u32_at(data, 0);
    let version = u32_at(data, 4);
    if data.len() < 160 {
        is_drop(r, "BSP file too small"@)
    } else if ident != IDBSPHEADER {
        is_drop(r, "CMod_LoadBrushModel: wrong magic 0x"@ + hex8(ident as u32, true))
    } else if version != BSPVERSION {
        is_drop(r, "CMod_LoadBrushModel: wrong version "@ + decimal(version as nat) + " (expected 38)"@)
    } else {
        r matches Ok(v) && v@ == lump_directory(data)
    }
}

/// Check the BSP header and read its lump directory.
pub fn read_bsp_header(data: &[u8]) -> (r: Q2Result<Vec<(u32, u32)>>)
    ensures
        header_result(data@, r),
{
    if data.len() < 8 + HEADER_LUMPS * 8 {
        return Err(drop_msg("BSP file too small"));
    }
    let ident = match try_read_u32(data, 0) {
        Ok(x) => x,
        Err(e) => return Err(e),
    };
    let version = match try_read_u32(data, 4) {
        Ok(x) => x,
        Err(e) => return Err(e),
    };
    if ident != IDBSPHEADER {
        let mut m = str_chars("CMod_LoadBrushModel: wrong magic 0x");
        push_hex8(&mut m, ident, true);
        return Err(Q2Error::Drop(string_from_chars(m.as_slice())));
    }
    if version != BSPVERSION {
        let mut m = str_chars("CMod_LoadBrushModel: wrong version ");
        push_decimal(&mut m, version as u64);
        push_str_chars(&mut m, " (expected 38)");
        return Err(Q2Error::Drop(string_from_chars(m.as_slice())));
    }
    let mut lumps: Vec<(u32, u32)> = Vec::new();
    let mut i: usize = 0;
    while i < HEADER_LUMPS
        invariant
            0 <= i <= 19,
            data@.len() >= 160,
            lumps@ == lump_directory(data@).take(i as int),
        decreases 19 - i,
    {
        let base = 8 + i * 8;
        let a = match try_read_u32(data, base) {
            Ok(x) => x,
            Err(e) => return Err(e),
        };
        let b = match try_read_u32(data, base + 4) {
            Ok(x) => x,
            Err(e) => return Err(e),
        };
        lumps.push((a, b));
        assert(lumps@ =~= lump_directory(data@).take(i + 1));
        i = i + 1;
    }
    assert(lump_directory(data@).take(19) =~= lump_directory(data@));
    Ok(lumps)
}

// ---------------------------------------------------------------------------
// Area connectivity
// ---------------------------------------------------------------------------

/// Number of area portals a map may open or close.
pub const PORTAL_SLOTS: usize = 1024;

/// The portal list of each area: (first portal, portal count).
pub open spec fn topology(areas: Seq<CArea>) -> Seq<(i32, i32)> {
    areas.map_values(|a: CArea| (a.first_area_portal, a.num_area_portals))
}

/// Slot `i` of area `a` lies in its portal list and in the portal lump.
pub open spec fn slot_scanned(topo: Seq<(i32, i32)>, portals: Seq<CAreaPortal>, a: int, i: int) -> bool {
    &&& 0 <= i < (topo[a].1 as usize) as int
    &&& (topo[a].0 as usize) as int + i < portals.len()
}

/// Slot `i` of area `a` is an open portal into area `b`.
pub open spec fn slot_link(
    topo: Seq<(i32, i32)>,
    portals: Seq<CAreaPortal>,
    open: Seq<bool>,
    a: int,
    i: int,
    b: int,
) -> bool {
    let p = portals[(topo[a].0 as usize) as int + i];
    &&& slot_scanned(topo, portals, a, i)
    &&& (p.portal_num as usize) < open.len()
    &&& open[(p.portal_num as usize) as int]
    &&& (p.other_area as usize) as int == b
    &&& b < topo.len()
}

/// An open portal of area `a` leads into area `b`.
pub open spec fn link(topo: Seq<(i32, i32)>, portals: Seq<CAreaPortal>, open: Seq<bool>, a: int, b: int) -> bool {
    exists|i: int| slot_link(topo, portals, open, a, i, b)
}

/// Every open portal has an open portal back.
pub open spec fn symmetric(topo: Seq<(i32, i32)>, portals: Seq<CAreaPortal>, open: Seq<bool>) -> bool {
    forall|a: int, b: int| 0 <= a < topo.len() && #[trigger] link(topo, portals, open, a, b) ==> link(topo, portals, open, b, a)
}

/// `p` is a chain of areas, each leading into the next through an open
/// portal.
pub open spec fn is_path(topo: Seq<(i32, i32)>, portals: Seq<CAreaPortal>, open: Seq<bool>, p: Seq<int>) -> bool {
    &&& p.len() >= 1
    &&& forall|i: int| 0 <= i < p.len() ==> 0 <= #[trigger] p[i] < topo.len()
    &&& forall|i: int| 0 <= i < p.len() - 1 ==> #[trigger] link(topo, portals, open, p[i], p[i + 1])
}

/// Area `b` can be reached from area `a` through open portals.
pub open spec fn reachable(topo: Seq<(i32, i32)>, portals: Seq<CAreaPortal>, open: Seq<bool>, a: int, b: int) -> bool {
    exists|p: Seq<int>| #[trigger] is_path(topo, portals, open, p) && p[0] == a && p.last() == b
}

proof fn lemma_reach_refl(topo: Seq<(i32, i32)>, portals: Seq<CAreaPortal>, open: Seq<bool>, a: int)
    requires
        0 <= a < topo.len(),
    ensures
        reachable(topo, portals, open, a, a),
{
    let p = seq![a];
    assert(is_path(topo, portals, open, p));
}

proof fn lemma_reach_extend(topo: Seq<(i32, i32)>, portals: Seq<CAreaPortal>, open: Seq<bool>, a: int, x: int, y: int)
    requires
        reachable(topo, portals, open, a, x),
        link(topo, portals, open, x, y),
    ensures
        reachable(topo, portals, open, a, y),
{
    let p = choose|p: Seq<int>| #[trigger] is_path(topo, portals, open, p) && p[0] == a && p.last() == x;
    let q = p.push(y);
    assert forall|i: int| 0 <= i < q.len() implies 0 <= #[trigger] q[i] < topo.len() by {
        if i < p.len() {
            assert(q[i] == p[i]);
        }
    }
    assert forall|i: int| 0 <= i < q.len() - 1 implies #[trigger] link(topo, portals, open, q[i], q[i + 1]) by {
        if i < p.len() - 1 {
            assert(q[i] == p[i] && q[i + 1] == p[i + 1]);
        } else {
            assert(q[i] == x && q[i + 1] == y);
        }
    }
    assert(is_path(topo, portals, open, q));
}

proof fn lemma_reach_reverse(topo: Seq<(i32, i32)>, portals: Seq<CAreaPortal>, open: Seq<bool>, a: int, b: int)
    requires
        symmetric(topo, portals, open),
        reachable(topo, portals, open, a, b),
    ensures
        reachable(topo, portals, open, b, a),
{
    let p = choose|p: Seq<int>| #[trigger] is_path(topo, portals, open, p) && p[0] == a && p.last() == b;
    let n = p.len() as int;
    let q = Seq::new(n as nat, |i: int| p[n - 1 - i]);
    assert forall|i: int| 0 <= i < q.len() implies 0 <= #[trigger] q[i] < topo.len() by {
        assert(q[i] == p[n - 1 - i]);
    }
    assert forall|i: int| 0 <= i < q.len() - 1 implies #[trigger] link(topo, portals, open, q[i], q[i + 1]) by {
        let j = n - 2 - i;
        assert(link(topo, portals, open, p[j], p[j + 1]));
        assert(0 <= p[j] < topo.len());
        assert(q[i] == p[j + 1] && q[i + 1] == p[j]);
    }
    assert(is_path(topo, portals, open, q));
    assert(q[0] == b && q.last() == a);
}

proof fn lemma_reach_trans(topo: Seq<(i32, i32)>, portals: Seq<CAreaPortal>, open: Seq<bool>, a: int, b: int, c: int)
    requires
        reachable(topo, portals, open, a, b),
        reachable(topo, portals, open, b, c),
    ensures
        reachable(topo, portals, open, a, c),
{
    let p1 = choose|p: Seq<int>| #[trigger] is_path(topo, portals, open, p) && p[0] == a && p.last() == b;
    let p2 = choose|p: Seq<int>| #[trigger] is_path(topo, portals, open, p) && p[0] == b && p.last() == c;
    let q = p1 + p2.drop_first();
    let n1 = p1.len() as int;
    assert forall|i: int| 0 <= i < q.len() implies 0 <= #[trigger] q[i] < topo.len() by {
        if i < n1 {
            assert(q[i] == p1[i]);
        } else {
            assert(q[i] == p2[i - n1 + 1]);
        }
    }
    assert forall|i: int| 0 <= i < q.len() - 1 implies #[trigger] link(topo, portals, open, q[i], q[i + 1]) by {
        if i < n1 - 1 {
            assert(q[i] == p1[i] && q[i + 1] == p1[i + 1]);
        } else if i == n1 - 1 {
            assert(q[i] == p2[0] && q[i + 1] == p2[1]);
        } else {
            assert(q[i] == p2[i - n1 + 1] && q[i + 1] == p2[i - n1 + 2]);
        }
    }
    assert(is_path(topo, portals, open, q));
    if p2.len() == 1 {
        assert(q =~= p1);
    } else {
        assert(q.last() == p2.last());
    }
}

/// Area `k` was reached by the flood numbered by `fv`.
pub open spec fn marked(areas: Seq<CArea>, fv: i32, k: int) -> bool {
    areas[k].flood_valid == fv
}

/// Number of areas not reached by the flood numbered by `fv`.
pub open spec fn unmarked(areas: Seq<CArea>, fv: i32) -> nat
    decreases areas.len(),
{
    if areas.len() == 0 {
        0
    } else {
        unmarked(areas.drop_last(), fv) + if areas.last().flood_valid != fv { 1nat } else { 0nat }
    }
}

proof fn lemma_unmarked_monotone(a: Seq<CArea>, b: Seq<CArea>, fv: i32, k0: int)
    requires
        a.len() == b.len(),
        forall|k: int| 0 <= k < a.len() && marked(a, fv, k) ==> marked(b, fv, k),
    ensures
        unmarked(b, fv) <= unmarked(a, fv),
        0 <= k0 < a.len() && !marked(a, fv, k0) && marked(b, fv, k0) ==> unmarked(b, fv) < unmarked(a, fv),
    decreases a.len(),
{
    if a.len() > 0 {
        let n = a.len() - 1;
        assert forall|k: int| 0 <= k < a.drop_last().len() && marked(a.drop_last(), fv, k) implies marked(b.drop_last(), fv, k) by {
            assert(a.drop_last()[k] == a[k]);
            assert(b.drop_last()[k] == b[k]);
            assert(marked(a, fv, k));
        }
        if marked(a, fv, n) {
            assert(marked(b, fv, n));
        }
        lemma_unmarked_monotone(a.drop_last(), b.drop_last(), fv, k0);
        if 0 <= k0 < n {
            assert(a.drop_last()[k0] == a[k0]);
            assert(b.drop_last()[k0] == b[k0]);
        }
    }
}

proof fn lemma_path_same_number(areas: Seq<CArea>, portals: Seq<CAreaPortal>, open: Seq<bool>, fv: i32, p: Seq<int>)
    requires
        is_path(topology(areas), portals, open, p),
        marked(areas, fv, p[0]),
        forall|k: int, b: int|
            0 <= k < areas.len() && marked(areas, fv, k) && #[trigger] link(topology(areas), portals, open, k, b)
                ==> marked(areas, fv, b),
        forall|k: int, b: int|
            0 <= k < areas.len() && marked(areas, fv, k) && #[trigger] link(topology(areas), portals, open, k, b)
                ==> areas[k].flood_num == areas[b].flood_num,
    ensures
        marked(areas, fv, p.last()),
        areas[p.last()].flood_num == areas[p[0]].flood_num,
    decreases p.len(),
{
    let topo = topology(areas);
    if p.len() > 1 {
        let q = p.drop_last();
        assert forall|i: int| 0 <= i < q.len() implies 0 <= #[trigger] q[i] < topo.len() by {
            assert(q[i] == p[i]);
        }
        assert forall|i: int| 0 <= i < q.len() - 1 implies #[trigger] link(topo, portals, open, q[i], q[i + 1]) by {
            assert(q[i] == p[i] && q[i + 1] == p[i + 1]);
            assert(link(topo, portals, open, p[i], p[i + 1]));
        }
        lemma_path_same_number(areas, portals, open, fv, q);
        let n = p.len() - 2;
        assert(link(topo, portals, open, p[n], p[n + 1]));
        assert(q.last() == p[n]);
        assert(0 <= p[n] < topo.len());
    }
}

/// Areas connected through open portals: each flood gives the areas it
/// reaches one number, and two areas are connected when their numbers
/// agree.
pub struct AreaConnectivity {
    areas: Vec<CArea>,
    area_portals: Vec<CAreaPortal>,
    portal_open: Vec<bool>,
    flood_valid: i32,
}

impl AreaConnectivity {
    pub closed spec fn areas_view(&self) -> Seq<CArea> {
        self.areas@
    }

    pub closed spec fn portals_view(&self) -> Seq<CAreaPortal> {
        self.area_portals@
    }

    pub closed spec fn open_view(&self) -> Seq<bool> {
        self.portal_open@
    }

    pub closed spec fn flood_mark(&self) -> i32 {
        self.flood_valid
    }

    /// No area carries a mark of a later flood.
    pub closed spec fn wf(&self) -> bool {
        &&& 0 <= self.flood_valid
        &&& forall|k: int| 0 <= k < self.areas@.len() ==> #[trigger] self.areas@[k].flood_valid <= self.flood_valid
    }

    /// Every area from 1 on was reached by the last flood, an area reached
    /// by it reaches the areas its open portals lead to, and when every
    /// open portal has one back, those areas got the same number, and two
    /// areas from 1 on got the same number exactly when a chain of open
    /// portals leads from one to the other.
    pub open spec fn flooded(&self) -> bool {
        let areas = self.areas_view();
        let topo = topology(areas);
        let portals = self.portals_view();
        let open = self.open_view();
        let fv = self.flood_mark();
        &&& forall|k: int| 1 <= k < areas.len() ==> #[trigger] marked(areas, fv, k)
        &&& forall|k: int, b: int|
            0 <= k < areas.len() && marked(areas, fv, k) && #[trigger] link(topo, portals, open, k, b) ==> marked(areas, fv, b)
        &&& symmetric(topo, portals, open) ==> forall|k: int, b: int|
            0 <= k < areas.len() && marked(areas, fv, k) && #[trigger] link(topo, portals, open, k, b)
                ==> areas[k].flood_num == areas[b].flood_num
        &&& symmetric(topo, portals, open) ==> forall|a: int, b: int|
            1 <= a < areas.len() && 1 <= b < areas.len() ==> (areas[a].flood_num == areas[b].flood_num
                <==> #[trigger] reachable(topo, portals, open, a, b))
    }

    /// No map loaded: one unused area, no portals, all portal slots closed.
    pub fn empty() -> (r: Self)
        ensures
            r.wf(),
            r.areas_view().len() == 1,
            r.portals_view().len() == 0,
            r.open_view() == Seq::new(PORTAL_SLOTS as nat, |i: int| false),
    {
        let mut areas: Vec<CArea> = Vec::new();
        areas.push(CArea { num_area_portals: 0, first_area_portal: 0, flood_num: 0, flood_valid: 0 });
        AreaConnectivity {
            areas,
            area_portals: Vec::new(),
            portal_open: closed_portals(),
            flood_valid: 0,
        }
    }

    /// Take a map's areas and portals, close every portal slot and flood.
    pub fn load(&mut self, areas: Vec<CArea>, area_portals: Vec<CAreaPortal>)
        requires
            old(self).wf(),
            old(self).flood_mark() < i32::MAX,
            areas@.len() < i32::MAX,
            forall|k: int| 0 <= k < areas@.len() ==> #[trigger] areas@[k].flood_valid <= 0,
        ensures
            final(self).wf(),
            final(self).flooded(),
            topology(final(self).areas_view()) == topology(areas@),
            final(self).portals_view() == area_portals@,
            final(self).open_view() == Seq::new(PORTAL_SLOTS as nat, |i: int| false),
            final(self).flood_mark() == old(self).flood_mark() + 1,
    {
        self.areas = areas;
        self.area_portals = area_portals;
        self.portal_open = closed_portals();
        self.flood_area_connections();
    }

    fn flood_area_r(&mut self, area_idx: usize, flood_num: i32, Ghost(root): Ghost<int>)
        requires
            area_idx < old(self).areas@.len(),
            reachable(topology(old(self).areas@), old(self).area_portals@, old(self).portal_open@, root, area_idx as int),
        ensures
            forall|k: int|
                0 <= k < old(self).areas@.len() && !marked(old(self).areas@, old(self).flood_valid, k)
                    && #[trigger] marked(final(self).areas@, final(self).flood_valid, k) ==> reachable(
                    topology(old(self).areas@),
                    old(self).area_portals@,
                    old(self).portal_open@,
                    root,
                    k,
                ),
            final(self).area_portals@ == old(self).area_portals@,
            final(self).portal_open@ == old(self).portal_open@,
            final(self).flood_valid == old(self).flood_valid,
            final(self).areas@.len() == old(self).areas@.len(),
            topology(final(self).areas@) == topology(old(self).areas@),
            marked(final(self).areas@, final(self).flood_valid, area_idx as int),
            forall|k: int|
                0 <= k < old(self).areas@.len() && marked(old(self).areas@, old(self).flood_valid, k)
                    ==> #[trigger] final(self).areas@[k] == old(self).areas@[k],
            forall|k: int|
                0 <= k < old(self).areas@.len() && !marked(old(self).areas@, old(self).flood_valid, k)
                    && marked(final(self).areas@, final(self).flood_valid, k) ==> (#[trigger] final(self).areas@[k]).flood_num
                    == flood_num,
            forall|k: int|
                0 <= k < old(self).areas@.len() && !marked(old(self).areas@, old(self).flood_valid, k)
                    && !marked(final(self).areas@, final(self).flood_valid, k) ==> #[trigger] final(self).areas@[k]
                    == old(self).areas@[k],
            forall|k: int, b: int|
                0 <= k < old(self).areas@.len() && !marked(old(self).areas@, old(self).flood_valid, k)
                    && marked(final(self).areas@, final(self).flood_valid, k) && #[trigger] link(
                    topology(old(self).areas@),
                    old(self).area_portals@,
                    old(self).portal_open@,
                    k,
                    b,
                ) ==> marked(final(self).areas@, final(self).flood_valid, b),
        decreases unmarked(old(self).areas@, old(self).flood_valid),
    {
        let ghost o_areas = self.areas@;
        let ghost topo = topology(self.areas@);
        let ghost portals = self.area_portals@;
        let ghost open = self.portal_open@;
        let ghost fv = self.flood_valid;
        if self.areas[area_idx].flood_valid == self.flood_valid {
            return;
        }
        let num_portals = self.areas[area_idx].num_area_portals;
        let first_area_portal = self.areas[area_idx].first_area_portal;
        self.areas.set(
            area_idx,
            CArea {
                num_area_portals: num_portals,
                first_area_portal,
                flood_num,
                flood_valid: self.flood_valid,
            },
        );
        assert(topology(self.areas@) =~= topo);
        let first_portal = first_area_portal as usize;
        let count = num_portals as usize;
        let nportals = self.area_portals.len();
        let mut i: usize = 0;
        while i < count
            invariant
                nportals == portals.len(),
                o_areas == old(self).areas@,
                fv == old(self).flood_valid,
                area_idx < o_areas.len(),
                topo == topology(o_areas),
                first_portal == (topo[area_idx as int].0 as usize),
                count == (topo[area_idx as int].1 as usize),
                !marked(o_areas, fv, area_idx as int),
                self.area_portals@ == portals,
                self.portal_open@ == open,
                self.flood_valid == fv,
                self.areas@.len() == o_areas.len(),
                topology(self.areas@) == topo,
                marked(self.areas@, fv, area_idx as int),
                0 <= i <= count,
                i > 0 ==> first_portal + i - 1 < portals.len(),
                forall|k: int| 0 <= k < o_areas.len() && marked(o_areas, fv, k) ==> #[trigger] self.areas@[k] == o_areas[k],
                forall|k: int|
                    0 <= k < o_areas.len() && !marked(o_areas, fv, k) && marked(self.areas@, fv, k)
                        ==> (#[trigger] self.areas@[k]).flood_num == flood_num,
                forall|k: int|
                    0 <= k < o_areas.len() && !marked(o_areas, fv, k) && !marked(self.areas@, fv, k)
                        ==> #[trigger] self.areas@[k] == o_areas[k],
                forall|k: int, b: int|
                    0 <= k < o_areas.len() && k != area_idx && !marked(o_areas, fv, k) && marked(self.areas@, fv, k)
                        && #[trigger] link(topo, portals, open, k, b) ==> marked(self.areas@, fv, b),
                forall|j: int, b: int| 0 <= j < i && #[trigger] slot_link(topo, portals, open, area_idx as int, j, b) ==> marked(self.areas@, fv, b),
                reachable(topo, portals, open, root, area_idx as int),
                forall|k: int|
                    0 <= k < o_areas.len() && !marked(o_areas, fv, k) && #[trigger] marked(self.areas@, fv, k)
                        ==> reachable(topo, portals, open, root, k),
            ensures
                forall|j: int, b: int| #[trigger] slot_link(topo, portals, open, area_idx as int, j, b) ==> marked(self.areas@, fv, b),
            decreases count - i,
        {
            let portal_idx = first_portal + i;
            if portal_idx >= nportals {
                break;
            }
            let portal_num = self.area_portals[portal_idx].portal_num as usize;
            let other_area = self.area_portals[portal_idx].other_area as usize;
            if portal_num < self.portal_open.len() && self.portal_open[portal_num] && other_area
                < self.areas.len() {
                let ghost before = self.areas@;
                proof {
                    assert forall|k: int| 0 <= k < o_areas.len() && marked(o_areas, fv, k) implies marked(before, fv, k) by {
                        assert(before[k] == o_areas[k]);
                    }
                    lemma_unmarked_monotone(o_areas, before, fv, area_idx as int);
                    assert(slot_link(topo, portals, open, area_idx as int, i as int, other_area as int));
                    assert(link(topo, portals, open, area_idx as int, other_area as int));
                    lemma_reach_extend(topo, portals, open, root, area_idx as int, other_area as int);
                }
                self.flood_area_r(other_area, flood_num, Ghost(root));
                proof {
                    let after = self.areas@;
                    assert forall|k: int| 0 <= k < o_areas.len() && marked(o_areas, fv, k) implies #[trigger] after[k] == o_areas[k] by {
                        assert(before[k] == o_areas[k]);
                        assert(marked(before, fv, k));
                    }
                    assert forall|k: int|
                        0 <= k < o_areas.len() && !marked(o_areas, fv, k) && marked(after, fv, k) implies (#[trigger] after[k]).flood_num == flood_num by {
                        if marked(before, fv, k) {
                            assert(after[k] == before[k]);
                        }
                    }
                    assert forall|k: int|
                        0 <= k < o_areas.len() && !marked(o_areas, fv, k) && !marked(after, fv, k) implies #[trigger] after[k] == o_areas[k] by {
                        if marked(before, fv, k) {
                            assert(after[k] == before[k]);
                        } else {
                            assert(after[k] == before[k]);
                            assert(before[k] == o_areas[k]);
                        }
                    }
                    assert forall|k: int, b: int|
                        0 <= k < o_areas.len() && k != area_idx && !marked(o_areas, fv, k) && marked(after, fv, k)
                            && #[trigger] link(topo, portals, open, k, b) implies marked(after, fv, b) by {
                        if marked(before, fv, k) {
                            assert(marked(before, fv, b));
                        }
                    }
                    assert forall|j: int, b: int| 0 <= j < i + 1 && #[trigger] slot_link(topo, portals, open, area_idx as int, j, b) implies marked(after, fv, b) by {
                        if j < i {
                            assert(marked(before, fv, b));
                        }
                    }
                    assert forall|k: int|
                        0 <= k < o_areas.len() && !marked(o_areas, fv, k) && #[trigger] marked(after, fv, k)
                            implies reachable(topo, portals, open, root, k) by {
                        if marked(before, fv, k) {
                        } else {
                            assert(!marked(before, fv, k));
                        }
                    }
                }
            }
            i = i + 1;
        }
        proof {
            let n = self.areas@;
            assert forall|k: int, b: int|
                0 <= k < o_areas.len() && !marked(o_areas, fv, k) && marked(n, fv, k)
                    && #[trigger] link(topo, portals, open, k, b) implies marked(n, fv, b) by {
                if k == area_idx {
                    let j = choose|j: int| slot_link(topo, portals, open, k, j, b);
                    assert(slot_link(topo, portals, open, area_idx as int, j, b));
                }
            }
        }
    }

    fn flood_area_connections(&mut self)
        requires
            old(self).wf(),
            old(self).flood_valid < i32::MAX,
            old(self).areas@.len() < i32::MAX,
        ensures
            final(self).wf(),
            final(self).flooded(),
            final(self).area_portals@ == old(self).area_portals@,
            final(self).portal_open@ == old(self).portal_open@,
            final(self).flood_valid == old(self).flood_valid + 1,
            topology(final(self).areas@) == topology(old(self).areas@),
    {
        self.flood_valid = self.flood_valid + 1;
        let ghost fv = self.flood_valid;
        let ghost topo = topology(self.areas@);
        let ghost portals = self.area_portals@;
        let ghost open = self.portal_open@;
        let mut flood_num: i32 = 0;
        let ghost mut roots: Seq<int> = seq![0int];
        let num_areas = self.areas.len();
        let mut i: usize = 1;
        while i < num_areas
            invariant
                num_areas == self.areas@.len(),
                num_areas < i32::MAX,
                1 <= i <= num_areas || num_areas == 0,
                0 <= flood_num <= i,
                self.flood_valid == fv,
                fv > 0,
                self.area_portals@ == portals,
                self.portal_open@ == open,
                topology(self.areas@) == topo,
                forall|k: int| 0 <= k < self.areas@.len() ==> #[trigger] self.areas@[k].flood_valid <= fv,
                forall|k: int| 0 <= k < self.areas@.len() && marked(self.areas@, fv, k) ==> self.areas@[k].flood_num <= flood_num,
                forall|k: int| 1 <= k < i ==> #[trigger] marked(self.areas@, fv, k),
                roots.len() == flood_num + 1,
                forall|k: int|
                    0 <= k < self.areas@.len() && #[trigger] marked(self.areas@, fv, k) ==> 1 <= self.areas@[k].flood_num
                        && reachable(topo, portals, open, roots[self.areas@[k].flood_num as int], k),
                forall|k: int, b: int|
                    0 <= k < self.areas@.len() && marked(self.areas@, fv, k) && #[trigger] link(topo, portals, open, k, b)
                        ==> marked(self.areas@, fv, b),
                symmetric(topo, portals, open) ==> forall|k: int, b: int|
                    0 <= k < self.areas@.len() && marked(self.areas@, fv, k) && #[trigger] link(topo, portals, open, k, b)
                        ==> self.areas@[k].flood_num == self.areas@[b].flood_num,
            decreases num_areas - i,
        {
            if self.areas[i].flood_valid != self.flood_valid {
                flood_num = flood_num + 1;
                let ghost before = self.areas@;
                proof {
                    lemma_reach_refl(topo, portals, open, i as int);
                }
                self.flood_area_r(i, flood_num, Ghost(i as int));
                proof {
                    let after = self.areas@;
                    let old_roots = roots;
                    roots = roots.push(i as int);
                    assert forall|k: int|
                        0 <= k < after.len() && #[trigger] marked(after, fv, k) implies 1 <= after[k].flood_num
                            && reachable(topo, portals, open, roots[after[k].flood_num as int], k) by {
                        if marked(before, fv, k) {
                            assert(after[k] == before[k]);
                            assert(roots[before[k].flood_num as int] == old_roots[before[k].flood_num as int]);
                        } else {
                            assert(after[k].flood_num == flood_num);
                            assert(roots[flood_num as int] == i as int);
                        }
                    }
                    assert forall|k: int| 0 <= k < after.len() implies #[trigger] after[k].flood_valid <= fv by {
                        if marked(before, fv, k) {
                            assert(after[k] == before[k]);
                        } else if !marked(after, fv, k) {
                            assert(after[k] == before[k]);
                        }
                    }
                    assert forall|k: int| 1 <= k < i + 1 implies #[trigger] marked(after, fv, k) by {
                        if k < i {
                            assert(marked(before, fv, k));
                            assert(after[k] == before[k]);
                        }
                    }
                    assert forall|k: int| 0 <= k < after.len() && marked(after, fv, k) implies after[k].flood_num <= flood_num by {
                        if marked(before, fv, k) {
                            assert(after[k] == before[k]);
                        } else {
                            assert(after[k].flood_num == flood_num);
                        }
                    }
                    assert forall|k: int, b: int|
                        0 <= k < after.len() && marked(after, fv, k) && #[trigger] link(topo, portals, open, k, b) implies marked(after, fv, b) by {
                        if marked(before, fv, k) {
                            assert(marked(before, fv, b));
                            assert(after[b] == before[b]);
                        }
                    }
                    if symmetric(topo, portals, open) {
                        assert forall|k: int, b: int|
                            0 <= k < after.len() && marked(after, fv, k) && #[trigger] link(topo, portals, open, k, b)
                                implies after[k].flood_num == after[b].flood_num by {
                            if marked(before, fv, k) {
                                assert(marked(before, fv, b));
                                assert(after[b] == before[b]);
                                assert(after[k] == before[k]);
                            } else {
                                assert(marked(after, fv, b));
                                assert(link(topo, portals, open, b, k));
                                if marked(before, fv, b) {
                                    assert(marked(before, fv, k));
                                }
                            }
                        }
                    }
                }
            }
            i = i + 1;
        }
        proof {
            let areas = self.areas@;
            if symmetric(topo, portals, open) {
                assert forall|a: int, b: int| 1 <= a < areas.len() && 1 <= b < areas.len() implies (areas[a].flood_num
                    == areas[b].flood_num <==> #[trigger] reachable(topo, portals, open, a, b)) by {
                    assert(marked(areas, fv, a) && marked(areas, fv, b));
                    if areas[a].flood_num == areas[b].flood_num {
                        let r = roots[areas[a].flood_num as int];
                        lemma_reach_reverse(topo, portals, open, r, a);
                        lemma_reach_trans(topo, portals, open, a, r, b);
                    }
                    if reachable(topo, portals, open, a, b) {
                        let p = choose|p: Seq<int>| #[trigger] is_path(topo, portals, open, p) && p[0] == a && p.last() == b;
                        lemma_path_same_number(areas, portals, open, fv, p);
                    }
                }
            }
        }
    }

    /// Open or close an area portal and recompute connectivity; a portal
    /// number past the slots changes nothing.
    pub fn set_area_portal_state(&mut self, portal_num: usize, open: bool)
        requires
            old(self).wf(),
            old(self).flood_mark() < i32::MAX,
            old(self).areas_view().len() < i32::MAX,
        ensures
            final(self).wf(),
            portal_num < old(self).open_view().len() ==> {
                &&& final(self).open_view() == old(self).open_view().update(portal_num as int, open)
                &&& final(self).flooded()
                &&& final(self).flood_mark() == old(self).flood_mark() + 1
                &&& topology(final(self).areas_view()) == topology(old(self).areas_view())
                &&& final(self).portals_view() == old(self).portals_view()
            },
            portal_num >= old(self).open_view().len() ==> *final(self) == *old(self),
    {
        if portal_num < self.portal_open.len() {
            self.portal_open.set(portal_num, open);
            self.flood_area_connections();
        }
    }

    /// Whether two areas are connected (can see and hear each other).
    pub fn areas_connected(&self, area1: i32, area2: i32) -> (r: bool)
        ensures
            r == ((area1 as usize) < self.areas_view().len() && (area2 as usize) < self.areas_view().len()
                && self.areas_view()[(area1 as usize) as int].flood_num
                == self.areas_view()[(area2 as usize) as int].flood_num),
    {
        let a1 = area1 as usize;
        let a2 = area2 as usize;
        if a1 >= self.areas.len() || a2 >= self.areas.len() {
            return false;
        }
        self.areas[a1].flood_num == self.areas[a2].flood_num
    }
}

/// All portal slots closed.
fn closed_portals() -> (r: Vec<bool>)
    ensures
        r@ == Seq::new(PORTAL_SLOTS as nat, |i: int| false),
{
    let mut v: Vec<bool> = Vec::new();
    let mut i: usize = 0;
    while i < PORTAL_SLOTS
        invariant
            0 <= i <= PORTAL_SLOTS,
            v@ == Seq::new(i as nat, |j: int| false),
        decreases PORTAL_SLOTS - i,
    {
        v.push(false);
        i = i + 1;
        assert(v@ =~= Seq::new(i as nat, |j: int| false));
    }
    v
}

/// After a flood, an open portal between areas (from area 1 on) that has
/// an open portal back connects them.
pub proof fn law_open_portal_connects(c: AreaConnectivity, a: int, b: int)
    requires
        c.flooded(),
        symmetric(topology(c.areas_view()), c.portals_view(), c.open_view()),
        1 <= a < c.areas_view().len(),
        link(topology(c.areas_view()), c.portals_view(), c.open_view(), a, b),
    ensures
        0 <= b < c.areas_view().len(),
        c.areas_view()[a].flood_num == c.areas_view()[b].flood_num,
{
    let areas = c.areas_view();
    assert(marked(areas, c.flood_mark(), a));
}


/// After a flood, with every open portal having one back, two areas from 1
/// on are reported connected exactly when a chain of open portals leads
/// from one to the other.
pub proof fn law_connected_iff_reachable(c: AreaConnectivity, a: int, b: int)
    requires
        c.flooded(),
        symmetric(topology(c.areas_view()), c.portals_view(), c.open_view()),
        1 <= a < c.areas_view().len(),
        1 <= b < c.areas_view().len(),
    ensures
        c.areas_view()[a].flood_num == c.areas_view()[b].flood_num <==> reachable(
            topology(c.areas_view()),
            c.portals_view(),
            c.open_view(),
            a,
            b,
        ),
{
}

} // verus!
