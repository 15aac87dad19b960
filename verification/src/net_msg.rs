//! Network message buffer: the binary wire format of the Quake 2 protocol.
//!
//! A `NetMsg` is an append-only byte buffer with a read cursor. Writers
//! append little-endian integers, strings and raw bytes; readers consume
//! them from the cursor. A read past the end of the data sets the overflow
//! flag and yields a sentinel (-1 for integers) without moving the cursor.

use vstd::prelude::*;
use crate::binary::{signed16, signed32, u16_at, u32_at, lemma_u16_as_i16, lemma_u32_as_i32};
use crate::text::{utf8_lossy, bytes_to_string_lossy};
use vstd::utf8::{decode_utf8, encode_utf8, valid_utf8};

verus! {

/// The abstract state of a message buffer.
pub struct MsgView {
    pub data: Seq<u8>,
    pub read_pos: nat,
    pub overflowed: bool,
}

/// Network message buffer with sequential write and read operations.
pub struct NetMsg {
    data: Vec<u8>,
    read_pos: usize,
    /// Reserved: overflow is never allowed by this buffer.
    allow_overflow: bool,
    overflowed: bool,
}

impl View for NetMsg {
    type V = MsgView;

    closed spec fn view(&self) -> MsgView {
        MsgView { data: self.data@, read_pos: self.read_pos as nat, overflowed: self.overflowed }
    }
}

/// The two bytes that `write_short` appends for `c`.
pub open spec fn short_bytes(c: i32) -> Seq<u8> {
    let u = (c as i16) as u16;
    seq![(u % 256) as u8, (u / 256) as u8]
}

/// The four bytes that `write_long` appends for `c`.
pub open spec fn long_bytes(c: i32) -> Seq<u8> {
    let u = c as u32;
    seq![(u % 256) as u8, ((u / 256) % 256) as u8, ((u / 65536) % 256) as u8, (u / 16777216) as u8]
}

/// `k` is where the NUL-terminated string at the front of `s` ends: no NUL
/// before `k`, and either a NUL at `k` or the end of `s`.
pub open spec fn cstr_end(s: Seq<u8>, k: int) -> bool {
    &&& 0 <= k <= s.len()
    &&& forall|j: int| 0 <= j < k ==> s[j] != 0
    &&& k < s.len() ==> s[k] == 0
}

/// The state after a read that found `n` bytes at the cursor.
pub open spec fn advanced(v: MsgView, n: nat) -> MsgView {
    MsgView { read_pos: v.read_pos + n, ..v }
}

/// The state after a read that ran past the end.
pub open spec fn overflowed(v: MsgView) -> MsgView {
    MsgView { overflowed: true, ..v }
}

/// The read cursor lies within the data; every operation keeps this.
pub open spec fn cursor_in_data(v: MsgView) -> bool {
    v.read_pos <= v.data.len()
}

/// What `read_char` yields from state `v`, and the state after it.
pub open spec fn char_read(v: MsgView) -> (i32, MsgView) {
    if v.read_pos + 1 <= v.data.len() {
        ((v.data[v.read_pos as int] as i8) as i32, advanced(v, 1))
    } else {
        (-1i32, overflowed(v))
    }
}

/// What `read_byte` yields from state `v`, and the state after it.
pub open spec fn byte_read(v: MsgView) -> (i32, MsgView) {
    if v.read_pos + 1 <= v.data.len() {
        (v.data[v.read_pos as int] as i32, advanced(v, 1))
    } else {
        (-1i32, overflowed(v))
    }
}

/// What `read_short` yields from state `v`, and the state after it.
pub open spec fn short_read(v: MsgView) -> (i32, MsgView) {
    if v.read_pos + 2 <= v.data.len() {
        (signed16(u16_at(v.data, v.read_pos as int)) as i32, advanced(v, 2))
    } else {
        (-1i32, overflowed(v))
    }
}

/// What `read_long` yields from state `v`, and the state after it.
pub open spec fn long_read(v: MsgView) -> (i32, MsgView) {
    if v.read_pos + 4 <= v.data.len() {
        (signed32(u32_at(v.data, v.read_pos as int)) as i32, advanced(v, 4))
    } else {
        (-1i32, overflowed(v))
    }
}

/// An empty buffer.
pub open spec fn empty_view() -> MsgView {
    MsgView { data: Seq::empty(), read_pos: 0, overflowed: false }
}

/// Append every byte of `d` to `v`, in order.
pub fn append_bytes(v: &mut Vec<u8>, d: &[u8])
    ensures
        final(v)@ == old(v)@ + d@,
{
    let mut i: usize = 0;
    while i < d.len()
        invariant
            0 <= i <= d@.len(),
            v@ == old(v)@ + d@.take(i as int),
        decreases d@.len() - i,
    {
        v.push(d[i]);
        i = i + 1;
        assert(v@ =~= old(v)@ + d@.take(i as int));
    }
    assert(d@.take(d@.len() as int) =~= d@);
}

impl NetMsg {
    /// Create an empty buffer.
    pub fn new() -> (r: Self)
        ensures
            cursor_in_data(r@),
            r@ == empty_view(),
    {
        NetMsg { data: Vec::new(), read_pos: 0, allow_overflow: false, overflowed: false }
    }

    /// Create an empty buffer with pre-allocated capacity.
    pub fn with_capacity(capacity: usize) -> (r: Self)
        ensures
            cursor_in_data(r@),
            r@ == empty_view(),
    {
        NetMsg { data: Vec::with_capacity(capacity), read_pos: 0, allow_overflow: false, overflowed: false }
    }

    /// Create a buffer holding received bytes, ready for reading.
    pub fn from_bytes(data: &[u8]) -> (r: Self)
        ensures
            cursor_in_data(r@),
            r@ == (MsgView { data: data@, read_pos: 0, overflowed: false }),
    {
        let mut v: Vec<u8> = Vec::with_capacity(data.len());
        append_bytes(&mut v, data);
        NetMsg { data: v, read_pos: 0, allow_overflow: false, overflowed: false }
    }

    /// Clear the buffer: no data, cursor at the start, no overflow.
    pub fn clear(&mut self)
        ensures
            cursor_in_data(final(self)@),
            final(self)@ == empty_view(),
    {
        self.data.clear();
        self.read_pos = 0;
        self.overflowed = false;
    }

    /// Number of bytes in the buffer.
    pub fn len(&self) -> (r: usize)
        ensures
            r == self@.data.len(),
    {
        self.data.len()
    }

    /// Whether the buffer holds no bytes.
    pub fn is_empty(&self) -> (r: bool)
        ensures
            r == (self@.data.len() == 0),
    {
        self.data.len() == 0
    }

    /// The raw bytes, for sending.
    pub fn data(&self) -> (r: &[u8])
        ensures
            r@ == self@.data,
    {
        self.data.as_slice()
    }

    /// The read cursor, in bytes from the start.
    pub fn read_cursor(&self) -> (r: usize)
        ensures
            r == self@.read_pos,
    {
        self.read_pos
    }

    /// Whether a read has run past the end of the data.
    pub fn is_overflowed(&self) -> (r: bool)
        ensures
            r == self@.overflowed,
    {
        self.overflowed
    }

    /// The bytes from the read cursor to the end.
    pub fn remaining_data(&self) -> (r: &[u8])
        requires
            cursor_in_data(self@),
        ensures
            r@ == self@.data.skip(self@.read_pos as int),
    {
        let s = self.data.as_slice();
        &s[self.read_pos..s.len()]
    }

    // ----- Writing -----

    /// Append the low byte of `c` (read back sign-extended by `read_char`).
    pub fn write_char(&mut self, c: i32)
        requires
            cursor_in_data(old(self)@),
        ensures
            cursor_in_data(final(self)@),
            final(self)@ == (MsgView { data: old(self)@.data.push(c as u8), ..old(self)@ }),
    {
        self.data.push(c as u8);
    }

    /// Append the low byte of `c` (read back unsigned by `read_byte`).
    pub fn write_byte(&mut self, c: i32)
        requires
            cursor_in_data(old(self)@),
        ensures
            cursor_in_data(final(self)@),
            final(self)@ == (MsgView { data: old(self)@.data.push(c as u8), ..old(self)@ }),
    {
        self.data.push(c as u8);
    }

    /// Append `c` truncated to 16 bits, little-endian.
    pub fn write_short(&mut self, c: i32)
        requires
            cursor_in_data(old(self)@),
        ensures
            cursor_in_data(final(self)@),
            final(self)@ == (MsgView { data: old(self)@.data + short_bytes(c), ..old(self)@ }),
    {
        let u = (c as i16) as u16;
        self.data.push((u % 256) as u8);
        self.data.push((u / 256) as u8);
        assert(self.data@ =~= old(self)@.data + short_bytes(c));
    }

    /// Append `c` as 32 bits, little-endian.
    pub fn write_long(&mut self, c: i32)
        requires
            cursor_in_data(old(self)@),
        ensures
            cursor_in_data(final(self)@),
            final(self)@ == (MsgView { data: old(self)@.data + long_bytes(c), ..old(self)@ }),
    {
        let u = c as u32;
        self.data.push((u % 256) as u8);
        self.data.push(((u / 256) % 256) as u8);
        self.data.push(((u / 65536) % 256) as u8);
        self.data.push((u / 16777216) as u8);
        assert(self.data@ =~= old(self)@.data + long_bytes(c));
    }

    /// Append the UTF-8 bytes of `s` and a NUL terminator.
    pub fn write_string(&mut self, s: &str)
        requires
            cursor_in_data(old(self)@),
        ensures
            cursor_in_data(final(self)@),
            final(self)@ == (MsgView {
                data: old(self)@.data + encode_utf8(s@) + seq![0u8],
                ..old(self)@
            }),
    {
        append_bytes(&mut self.data, s.as_bytes());
        self.data.push(0);
        assert(self.data@ =~= old(self)@.data + encode_utf8(s@) + seq![0u8]);
    }

    /// Append raw bytes.
    pub fn write_data(&mut self, data: &[u8])
        requires
            cursor_in_data(old(self)@),
        ensures
            cursor_in_data(final(self)@),
            final(self)@ == (MsgView { data: old(self)@.data + data@, ..old(self)@ }),
    {
        append_bytes(&mut self.data, data);
    }

    // ----- Reading -----

    /// Move the cursor back to the start and clear the overflow flag.
    pub fn begin_reading(&mut self)
        ensures
            cursor_in_data(final(self)@),
            final(self)@ == (MsgView { read_pos: 0, overflowed: false, ..old(self)@ }),
    {
        self.read_pos = 0;
        self.overflowed = false;
    }

    /// Read one byte, sign-extended; -1 past the end.
    pub fn read_char(&mut self) -> (r: i32)
        requires
            cursor_in_data(old(self)@),
        ensures
            cursor_in_data(final(self)@),
            (r, final(self)@) == char_read(old(self)@),
    {
        if self.read_pos >= self.data.len() {
            self.overflowed = true;
            return -1;
        }
        let val = self.data[self.read_pos] as i8;
        self.read_pos = self.read_pos + 1;
        val as i32
    }

    /// Read one unsigned byte; -1 past the end.
    pub fn read_byte(&mut self) -> (r: i32)
        requires
            cursor_in_data(old(self)@),
        ensures
            cursor_in_data(final(self)@),
            (r, final(self)@) == byte_read(old(self)@),
    {
        if self.read_pos >= self.data.len() {
            self.overflowed = true;
            return -1;
        }
        let val = self.data[self.read_pos];
        self.read_pos = self.read_pos + 1;
        val as i32
    }

    /// Read a signed 16-bit little-endian integer; -1 past the end.
    pub fn read_short(&mut self) -> (r: i32)
        requires
            cursor_in_data(old(self)@),
        ensures
            cursor_in_data(final(self)@),
            (r, final(self)@) == short_read(old(self)@),
    {
        if self.data.len() - self.read_pos < 2 {
            self.overflowed = true;
            return -1;
        }
        let p = self.read_pos;
        let u: u16 = self.data[p] as u16 + 256 * (self.data[p + 1] as u16);
        proof {
            lemma_u16_as_i16(u);
        }
        self.read_pos = p + 2;
        (u as i16) as i32
    }

    /// Read a signed 32-bit little-endian integer; -1 past the end.
    pub fn read_long(&mut self) -> (r: i32)
        requires
            cursor_in_data(old(self)@),
        ensures
            cursor_in_data(final(self)@),
            (r, final(self)@) == long_read(old(self)@),
    {
        if self.data.len() - self.read_pos < 4 {
            self.overflowed = true;
            return -1;
        }
        let p = self.read_pos;
        let u: u32 = self.data[p] as u32 + 256 * (self.data[p + 1] as u32) + 65536 * (
        self.data[p + 2] as u32) + 16777216 * (self.data[p + 3] as u32);
        proof {
            lemma_u32_as_i32(u);
        }
        self.read_pos = p + 4;
        u as i32
    }

    /// Read a NUL-terminated string, decoding its bytes as UTF-8 (invalid
    /// sequences become U+FFFD). Without a terminator the rest of the data
    /// is taken and the overflow flag is set.
    pub fn read_string(&mut self) -> (r: String)
        requires
            cursor_in_data(old(self)@),
        ensures
            cursor_in_data(final(self)@),
            ({
                let rest = old(self)@.data.skip(old(self)@.read_pos as int);
                exists|k: int| {
                    &&& cstr_end(rest, k)
                    &&& r@ == utf8_lossy(rest.take(k))
                    &&& valid_utf8(rest.take(k)) ==> r@ == decode_utf8(rest.take(k))
                    &&& k < rest.len() ==> final(self)@ == advanced(old(self)@, (k + 1) as nat)
                    &&& k == rest.len() ==> final(self)@ == overflowed(
                        advanced(old(self)@, k as nat),
                    )
                }
            }),
    {
        let ghost start = self.read_pos as int;
        let ghost rest = self.data@.skip(start);
        let mut result: Vec<u8> = Vec::new();
        let mut terminated = false;
        while self.read_pos < self.data.len()
            invariant_except_break
                0 <= start <= self.read_pos <= self.data.len(),
                self.data@ == old(self)@.data,
                self.overflowed == old(self)@.overflowed,
                rest == self.data@.skip(start),
                result@ == rest.take(self.read_pos - start),
                forall|j: int| 0 <= j < self.read_pos - start ==> #[trigger] rest[j] != 0,
                !terminated,
            ensures
                0 <= start <= self.read_pos <= self.data.len(),
                rest == self.data@.skip(start),
                self.data@ == old(self)@.data,
                self.overflowed == old(self)@.overflowed,
                terminated ==> {
                    &&& self.read_pos >= start + 1
                    &&& cstr_end(rest, self.read_pos - start - 1)
                    &&& result@ == rest.take(self.read_pos - start - 1)
                },
                !terminated ==> {
                    &&& self.read_pos == self.data.len()
                    &&& cstr_end(rest, self.read_pos - start)
                    &&& result@ == rest.take(self.read_pos - start)
                },
            decreases self.data.len() - self.read_pos,
        {
            let b = self.data[self.read_pos];
            assert(b == rest[self.read_pos - start]);
            self.read_pos = self.read_pos + 1;
            if b == 0 {
                terminated = true;
                assert(cstr_end(rest, self.read_pos - start - 1));
                break;
            }
            result.push(b);
            assert(result@ =~= rest.take(self.read_pos - start));
        }
        if !terminated {
            self.overflowed = true;
        }
        let s = bytes_to_string_lossy(result.as_slice());
        proof {
            let k = if terminated { self.read_pos - start - 1 } else { self.read_pos - start };
            assert(cstr_end(rest, k));
        }
        s
    }

    /// Fill `buf` from the cursor; bytes past the end read as 0 and set the
    /// overflow flag.
    pub fn read_data(&mut self, buf: &mut [u8])
        requires
            cursor_in_data(old(self)@),
        ensures
            cursor_in_data(final(self)@),
            ({
                let v = old(self)@;
                let avail = v.data.len() - v.read_pos;
                let n = old(buf)@.len();
                let k = if n <= avail { n as int } else { avail };
                &&& final(buf)@ == v.data.subrange(v.read_pos as int, v.read_pos + k) + Seq::new(
                    (n - k) as nat,
                    |i: int| 0u8,
                )
                &&& final(self)@ == MsgView {
                    read_pos: (v.read_pos + k) as nat,
                    overflowed: v.overflowed || n > avail,
                    data: v.data,
                }
            }),
    {
        let ghost v = self@;
        let ghost avail = v.data.len() - v.read_pos;
        let n = buf.len();
        let mut i: usize = 0;
        while i < n
            invariant
                0 <= i <= n,
                n == buf@.len(),
                n == old(buf)@.len(),
                avail == v.data.len() - v.read_pos,
                self.data@ == v.data,
                v.read_pos <= self.read_pos <= self.data.len(),
                self.read_pos == v.read_pos + (if i <= avail { i as int } else { avail }),
                self.overflowed == (v.overflowed || i > avail),
                forall|j: int|
                    0 <= j < i ==> buf@[j] == if j < avail {
                        v.data[v.read_pos + j]
                    } else {
                        0u8
                    },
            decreases n - i,
        {
            let ghost old_buf = buf@;
            if self.read_pos >= self.data.len() {
                self.overflowed = true;
                buf[i] = 0;
            } else {
                buf[i] = self.data[self.read_pos];
                self.read_pos = self.read_pos + 1;
            }
            assert(buf@ == old_buf.update(i as int, buf@[i as int]));
            i = i + 1;
        }
        proof {
            let k = if n <= avail { n as int } else { avail };
            assert(buf@ =~= v.data.subrange(v.read_pos as int, v.read_pos + k) + Seq::new(
                (n - k) as nat,
                |i: int| 0u8,
            ));
        }
    }
}

impl Default for NetMsg {
    fn default() -> (r: Self)
        ensures
            r@ == empty_view(),
    {
        Self::new()
    }
}

} // verus!

verus! {

// ---------------------------------------------------------------------------
// Laws of the wire format
// ---------------------------------------------------------------------------

/// `bytes` lie in the data starting at the read cursor.
pub open spec fn at_cursor(v: MsgView, bytes: Seq<u8>) -> bool {
    &&& v.read_pos + bytes.len() <= v.data.len()
    &&& v.data.subrange(v.read_pos as int, (v.read_pos + bytes.len()) as int) == bytes
}

/// Bytes found at the cursor can be taken apart piece by piece.
pub proof fn lemma_at_cursor_split(v: MsgView, a: Seq<u8>, b: Seq<u8>)
    requires
        at_cursor(v, a + b),
    ensures
        at_cursor(v, a),
        at_cursor(advanced(v, a.len()), b),
{
    let p = v.read_pos as int;
    let whole = v.data.subrange(p, p + a.len() + b.len());
    assert forall|i: int| 0 <= i < a.len() implies v.data.subrange(p, p + a.len())[i] == a[i] by {
        assert(whole[i] == (a + b)[i]);
    }
    assert forall|i: int| 0 <= i < b.len() implies v.data.subrange(
        p + a.len(),
        p + a.len() + b.len(),
    )[i] == b[i] by {
        assert(whole[a.len() + i] == (a + b)[a.len() + i]);
    }
    assert(v.data.subrange(p, p + a.len()) =~= a);
    assert(v.data.subrange(p + a.len(), p + a.len() + b.len()) =~= b);
}

/// Appending bytes keeps them at a cursor that was at the old end.
pub proof fn lemma_appended_at_cursor(v: MsgView, bytes: Seq<u8>)
    requires
        v.read_pos == v.data.len(),
    ensures
        at_cursor(MsgView { data: v.data + bytes, ..v }, bytes),
{
    let w = MsgView { data: v.data + bytes, ..v };
    assert(w.data.subrange(v.read_pos as int, (v.read_pos + bytes.len()) as int) =~= bytes);
}

/// The read cursor never passes the end of the data, whatever sequence of
/// operations built the buffer: a new or reset buffer starts it at 0,
/// writes only add data, and reads move it only over bytes that exist.
pub proof fn law_cursor_stays_in_data(v: MsgView, c: i32, bytes: Seq<u8>)
    requires
        cursor_in_data(v),
    ensures
        cursor_in_data(empty_view()),
        cursor_in_data(MsgView { data: bytes, read_pos: 0, overflowed: false }),
        cursor_in_data(MsgView { data: v.data.push(c as u8), ..v }),
        cursor_in_data(MsgView { data: v.data + short_bytes(c), ..v }),
        cursor_in_data(MsgView { data: v.data + long_bytes(c), ..v }),
        cursor_in_data(MsgView { data: v.data + bytes, ..v }),
        cursor_in_data(MsgView { read_pos: 0, overflowed: false, ..v }),
        cursor_in_data(char_read(v).1),
        cursor_in_data(byte_read(v).1),
        cursor_in_data(short_read(v).1),
        cursor_in_data(long_read(v).1),
{
}

/// Reading a char gives back what `write_char` wrote, for values in -128..=127.
pub proof fn law_char_roundtrip(v: MsgView, c: i32)
    requires
        at_cursor(v, seq![c as u8]),
        -128 <= c <= 127,
    ensures
        char_read(v) == (c, advanced(v, 1)),
{
    assert(v.data[v.read_pos as int] == seq![c as u8][0]);
    assert(((c as u8) as i8) as i32 == c) by (bit_vector)
        requires
            -128 <= c <= 127,
    ;
}

/// Reading a byte gives back what `write_byte` wrote, for values in 0..=255.
pub proof fn law_byte_roundtrip(v: MsgView, c: i32)
    requires
        at_cursor(v, seq![c as u8]),
        0 <= c <= 255,
    ensures
        byte_read(v) == (c, advanced(v, 1)),
{
    assert(v.data[v.read_pos as int] == seq![c as u8][0]);
}

/// Reading a short gives back what `write_short` wrote, truncated to 16 bits.
pub proof fn law_short_roundtrip(v: MsgView, c: i32)
    requires
        at_cursor(v, short_bytes(c)),
    ensures
        short_read(v) == ((c as i16) as i32, advanced(v, 2)),
        -32768 <= c <= 32767 ==> short_read(v).0 == c,
{
    let p = v.read_pos as int;
    assert(v.data[p] == short_bytes(c)[0]);
    assert(v.data[p + 1] == short_bytes(c)[1]);
    let u = (c as i16) as u16;
    assert(u16_at(v.data, p) == u);
    crate::binary::lemma_u16_as_i16(u);
    assert(((c as i16) as u16) as i16 == c as i16) by (bit_vector);
}

/// Reading a long gives back what `write_long` wrote.
pub proof fn law_long_roundtrip(v: MsgView, c: i32)
    requires
        at_cursor(v, long_bytes(c)),
    ensures
        long_read(v) == (c, advanced(v, 4)),
{
    let p = v.read_pos as int;
    assert(v.data[p] == long_bytes(c)[0]);
    assert(v.data[p + 1] == long_bytes(c)[1]);
    assert(v.data[p + 2] == long_bytes(c)[2]);
    assert(v.data[p + 3] == long_bytes(c)[3]);
    let u = c as u32;
    assert((u % 256) + 256 * ((u / 256) % 256) + 65536 * ((u / 65536) % 256) + 16777216 * (u
        / 16777216) == u) by (bit_vector);
    assert(u32_at(v.data, p) == u);
    lemma_u32_as_i32(u);
    assert((u as i32) == c) by (bit_vector)
        requires
            u == c as u32,
    ;
}

/// A long appended to a message whose cursor stands at its end is what the
/// next read of a long gives back.
pub proof fn law_write_then_read_long(v: MsgView, c: i32)
    requires
        v.read_pos == v.data.len(),
    ensures
        long_read(MsgView { data: v.data + long_bytes(c), ..v }).0 == c,
{
    lemma_appended_at_cursor(v, long_bytes(c));
    law_long_roundtrip(MsgView { data: v.data + long_bytes(c), ..v }, c);
}

/// No byte of the UTF-8 encoding of a string without NUL characters is 0.
pub proof fn lemma_encode_utf8_no_nul(s: Seq<char>)
    requires
        !s.contains('\0'),
    ensures
        forall|j: int| 0 <= j < encode_utf8(s).len() ==> encode_utf8(s)[j] != 0,
    decreases s.len(),
{
    if s.len() > 0 {
        let c = s[0] as u32;
        assert(s[0] != '\0');
        assert(!s.drop_first().contains('\0')) by {
            if s.drop_first().contains('\0') {
                let j = choose|j: int| 0 <= j < s.drop_first().len() && s.drop_first()[j] == '\0';
                assert(s[j + 1] == '\0');
            }
        }
        lemma_encode_utf8_no_nul(s.drop_first());
        let e = vstd::utf8::encode_scalar(c);
        vstd::utf8::char_u32_cast(s[0], c);
        assert(c != 0) by {
            if c == 0 {
                assert((0u32 as char) == '\0');
            }
        }
        assert(forall|j: int| 0 <= j < e.len() ==> e[j] != 0) by {
            assert(c != 0 ==> (c & 0x7F) as u8 != 0 || c >= 0x80) by (bit_vector);
            let x: u8 = 0;
            assert(forall|y: u8| (0x80u8 | y) != 0) by (bit_vector);
            assert(forall|y: u8| (0xC0u8 | y) != 0) by (bit_vector);
            assert(forall|y: u8| (0xE0u8 | y) != 0) by (bit_vector);
            assert(forall|y: u8| (0xF0u8 | y) != 0) by (bit_vector);
        }
        assert(encode_utf8(s) =~= e + encode_utf8(s.drop_first()));
    }
}

/// A NUL-terminated string ends at exactly one place.
pub proof fn lemma_cstr_end_unique(s: Seq<u8>, k1: int, k2: int)
    requires
        cstr_end(s, k1),
        cstr_end(s, k2),
    ensures
        k1 == k2,
{
    if k1 < k2 {
        assert(s[k1] == 0);
    } else if k2 < k1 {
        assert(s[k2] == 0);
    }
}

/// Reading a string gives back what `write_string` wrote, for strings
/// without NUL characters: the string ends at its terminator and its
/// bytes decode to the characters that were written.
pub proof fn law_string_roundtrip(v: MsgView, s: Seq<char>)
    requires
        at_cursor(v, encode_utf8(s) + seq![0u8]),
        !s.contains('\0'),
    ensures
        ({
            let rest = v.data.skip(v.read_pos as int);
            let n = encode_utf8(s).len() as int;
            &&& cstr_end(rest, n)
            &&& forall|k: int| cstr_end(rest, k) ==> k == n
            &&& valid_utf8(rest.take(n))
            &&& decode_utf8(rest.take(n)) == s
        }),
{
    let rest = v.data.skip(v.read_pos as int);
    let e = encode_utf8(s);
    let n = e.len() as int;
    lemma_encode_utf8_no_nul(s);
    assert forall|j: int| 0 <= j <= n implies rest[j] == (e + seq![0u8])[j] by {
        assert(v.data.subrange(v.read_pos as int, v.read_pos + n + 1)[j] == (e + seq![0u8])[j]);
    }
    assert(rest.take(n) =~= e);
    assert(cstr_end(rest, n));
    assert forall|k: int| cstr_end(rest, k) implies k == n by {
        lemma_cstr_end_unique(rest, k, n);
    }
    vstd::utf8::encode_utf8_valid_utf8(s);
    vstd::utf8::encode_utf8_decode_utf8(s);
}

} // verus!
