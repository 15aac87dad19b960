//! Virtual filesystem: PAK archives and game directories searched in order,
//! with case-insensitive, slash-normalized file names.

use vstd::prelude::*;
use crate::binary::{read_u32, u32_at};
use crate::error::{io_error_text, is_drop, is_drop_with_prefix, joined, Q2Error, Q2Result};
use crate::text::{
    bytes_to_string_lossy, chars_equal, ends_with_chars, lemma_lex_lt_total,
    lemma_lex_lt_transitive, lex_less, lex_lt, lowercase, push_decimal, push_hex8,
    push_str_chars, replace_backslashes, slashes_forward, str_chars, string_from_chars,
    to_lowercase, utf8_lossy, decimal, hex8,
};

verus! {

/// "PACK" read as a little-endian word.
pub const PAK_MAGIC: u32 = 0x4B43_4150;

/// Length of the NUL-padded name field of a directory entry.
pub const PAK_ENTRY_NAME_LEN: usize = 56;

/// Size of one directory entry: name, offset, size.
pub const PAK_DIR_ENTRY_SIZE: u32 = 64;

/// Most entries a PAK directory may hold.
pub const MAX_FILES_IN_PACK: usize = 4096;

// ---------------------------------------------------------------------------
// Path names
// ---------------------------------------------------------------------------

/// `s` without any number of leading `./`.
pub open spec fn strip_dot_slash(s: Seq<char>) -> Seq<char>
    decreases s.len(),
{
    if s.len() >= 2 && s[0] == '.' && s[1] == '/' {
        strip_dot_slash(s.skip(2))
    } else {
        s
    }
}

/// The normalized form of a path: backslashes become slashes, then the
/// string is lowercased, then leading `./` are removed.
pub open spec fn normalized(p: Seq<char>) -> Seq<char> {
    strip_dot_slash(lowercase(slashes_forward(p)))
}

proof fn lemma_stripped_has_no_dot_slash(s: Seq<char>)
    ensures
        !(strip_dot_slash(s).len() >= 2 && strip_dot_slash(s)[0] == '.' && strip_dot_slash(s)[1] == '/'),
    decreases s.len(),
{
    if s.len() >= 2 && s[0] == '.' && s[1] == '/' {
        lemma_stripped_has_no_dot_slash(s.skip(2));
    }
}

/// A normalized path never starts with `./`.
pub proof fn law_normalized_has_no_leading_dot_slash(p: Seq<char>)
    ensures
        !(normalized(p).len() >= 2 && normalized(p)[0] == '.' && normalized(p)[1] == '/'),
{
    lemma_stripped_has_no_dot_slash(lowercase(slashes_forward(p)));
}


/// Normalize a path: forward slashes, lowercase, no leading `./`.
pub fn normalize_path(path: &str) -> (r: String)
    ensures
        r@ == normalized(path@),
{
    let chars = str_chars(path);
    let fwd = replace_backslashes(chars.as_slice());
    let fwd_s = string_from_chars(fwd.as_slice());
    let lower = to_lowercase(fwd_s.as_str());
    let l = str_chars(lower.as_str());
    let mut i: usize = 0;
    assert(l@.skip(0) =~= l@);
    while l.len() - i >= 2 && l[i] == '.' && l[i + 1] == '/'
        invariant
            i <= l@.len(),
            strip_dot_slash(l@) == strip_dot_slash(l@.skip(i as int)),
        decreases l@.len() - i,
    {
        assert(l@.skip(i as int).skip(2) =~= l@.skip(i + 2));
        i = i + 2;
    }
    let sl = l.as_slice();
    let rest = &sl[i..sl.len()];
    assert(rest@ =~= l@.skip(i as int));
    string_from_chars(rest)
}

/// The name under which a directory entry is looked up: its relative path
/// with forward slashes and no leading `./`, in its own letter case.
pub open spec fn dir_entry_name(p: Seq<char>) -> Seq<char> {
    strip_dot_slash(slashes_forward(p))
}

/// The characters of `dir_entry_name(path)`.
fn dir_entry_chars(path: &str) -> (r: Vec<char>)
    ensures
        r@ == dir_entry_name(path@),
{
    let chars = str_chars(path);
    let l = replace_backslashes(chars.as_slice());
    let mut i: usize = 0;
    assert(l@.skip(0) =~= l@);
    while l.len() - i >= 2 && l[i] == '.' && l[i + 1] == '/'
        invariant
            i <= l@.len(),
            strip_dot_slash(l@) == strip_dot_slash(l@.skip(i as int)),
        decreases l@.len() - i,
    {
        assert(l@.skip(i as int).skip(2) =~= l@.skip(i + 2));
        i = i + 2;
    }
    let mut r: Vec<char> = Vec::new();
    let mut k = i;
    while k < l.len()
        invariant
            i <= k <= l@.len(),
            r@ == l@.subrange(i as int, k as int),
        decreases l@.len() - k,
    {
        r.push(l[k]);
        k = k + 1;
        assert(r@ =~= l@.subrange(i as int, k as int));
    }
    assert(r@ =~= l@.skip(i as int));
    r
}

// ---------------------------------------------------------------------------
// Reading
// ---------------------------------------------------------------------------

/// `Read::read_exact` on a byte slice, filling `buf`.
///
/// Claims: the buffer keeps its length; the read succeeds exactly when the
/// slice holds at least as many bytes as the buffer, and then the buffer
/// holds the first of them. Nothing is claimed of the error's text.
#[verifier::external_body]
fn read_exact_into(src: &[u8], buf: &mut Vec<u8>) -> (r: Result<(), std::io::Error>)
    ensures
        final(buf)@.len() == old(buf)@.len(),
        r is Ok <==> old(buf)@.len() <= src@.len(),
        r is Ok ==> final(buf)@ == src@.take(old(buf)@.len() as int),
{
    let mut s = src;
    std::io::Read::read_exact(&mut s, buf.as_mut_slice())
}

/// The bytes of `data` from `pos` on (none when `pos` is past the end).
fn bytes_from(data: &[u8], pos: u64) -> (r: &[u8])
    ensures
        pos <= data@.len() ==> r@ == data@.skip(pos as int),
        pos > data@.len() ==> r@ == Seq::<u8>::empty(),
{
    if pos > data.len() as u64 {
        &data[0..0]
    } else {
        let p = pos as usize;
        &data[p..data.len()]
    }
}

/// Read a little-endian u32 from the start of `src`.
pub fn read_u32_le(src: &[u8]) -> (r: Q2Result<u32>)
    ensures
        src@.len() >= 4 ==> r == Ok::<u32, Q2Error>(u32_at(src@, 0) as u32),
        src@.len() < 4 ==> is_drop_with_prefix(r, "read error: "@),
{
    let mut buf: Vec<u8> = vec![0u8, 0u8, 0u8, 0u8];
    match read_exact_into(src, &mut buf) {
        Ok(()) => Ok(read_u32(buf.as_slice(), 0)),
        Err(e) => {
            let t = io_error_text(&e);
            let m = joined("read error: ", t.as_str());
            assert(("read error: "@ + t@).subrange(0, "read error: "@.len() as int)
                =~= "read error: "@);
            Err(Q2Error::Drop(m))
        },
    }
}

// ---------------------------------------------------------------------------
// PAK directory
// ---------------------------------------------------------------------------

/// A file entry within a PAK archive.
#[derive(Debug, Clone)]
pub struct PackFile {
    /// Normalized file name.
    pub name: String,
    /// Offset of the data within the PAK.
    pub offset: u32,
    /// Size of the data.
    pub size: u32,
}

/// The files of a PAK archive, keyed by normalized name; a later entry
/// with the same name replaces an earlier one.
#[derive(Debug, Clone)]
pub struct PackDirectory {
    entries: Vec<PackFile>,
}

impl PackDirectory {
    /// Entry `i` carries the name `k`.
    pub closed spec fn has_at(&self, k: Seq<char>, i: int) -> bool {
        0 <= i < self.entries@.len() && self.entries@[i].name@ == k
    }

    /// The directory as a map from name to (offset, size).
    pub closed spec fn view(&self) -> Map<Seq<char>, (u32, u32)> {
        Map::new(
            |k: Seq<char>| exists|i: int| self.has_at(k, i),
            |k: Seq<char>|
                {
                    let i = choose|i: int| self.has_at(k, i);
                    (self.entries@[i].offset, self.entries@[i].size)
                },
        )
    }

    /// No two entries share a name.
    pub closed spec fn wf(&self) -> bool {
        forall|i: int, j: int|
            0 <= i < j < self.entries@.len() ==> self.entries@[i].name@ != self.entries@[j].name@
    }

    /// The names of the entries, in the order they are kept.
    pub closed spec fn names(&self) -> Seq<Seq<char>> {
        self.entries@.map_values(|e: PackFile| e.name@)
    }

    proof fn lemma_view_at(&self, i: int)
        requires
            self.wf(),
            0 <= i < self.entries@.len(),
        ensures
            self@.contains_key(self.entries@[i].name@),
            self@[self.entries@[i].name@] == (self.entries@[i].offset, self.entries@[i].size),
    {
        let k = self.entries@[i].name@;
        assert(self.has_at(k, i));
        let j = choose|j: int| self.has_at(k, j);
        assert(self.has_at(k, j));
        if j < i {
            assert(self.entries@[j].name@ != self.entries@[i].name@);
        } else if j > i {
            assert(self.entries@[i].name@ != self.entries@[j].name@);
        }
    }

    /// An empty directory.
    pub fn new() -> (r: Self)
        ensures
            r.wf(),
            r@ == Map::<Seq<char>, (u32, u32)>::empty(),
            r.names() == Seq::<Seq<char>>::empty(),
    {
        let r = PackDirectory { entries: Vec::new() };
        assert(r@ =~= Map::<Seq<char>, (u32, u32)>::empty());
        assert(r.names() =~= Seq::<Seq<char>>::empty());
        r
    }

    /// Number of files.
    pub fn len(&self) -> (r: usize)
        requires
            self.wf(),
        ensures
            r == self@.len(),
    {
        proof {
            self.lemma_len();
        }
        self.entries.len()
    }

    proof fn lemma_len(&self)
        requires
            self.wf(),
        ensures
            self@.len() == self.entries@.len(),
            self@.dom() == self.names().to_set(),
    {
        assert forall|k: Seq<char>| self@.dom().contains(k) <==> self.names().to_set().contains(k) by {
            if self@.dom().contains(k) {
                let i = choose|i: int| self.has_at(k, i);
                assert(self.names()[i] == k);
            }
            if self.names().to_set().contains(k) {
                let i = choose|i: int| 0 <= i < self.names().len() && self.names()[i] == k;
                assert(self.has_at(k, i));
            }
        }
        assert(self@.dom() =~= self.names().to_set());
        assert(self.names().no_duplicates()) by {
            assert forall|i: int, j: int|
                0 <= i < self.names().len() && 0 <= j < self.names().len() && i != j implies
                self.names()[i] != self.names()[j] by {
                if i < j {
                    assert(self.entries@[i].name@ != self.entries@[j].name@);
                } else {
                    assert(self.entries@[j].name@ != self.entries@[i].name@);
                }
            }
        }
        self.names().unique_seq_to_set();
    }

    fn position(&self, name: &[char]) -> (r: Option<usize>)
        ensures
            match r {
                Some(i) => self.has_at(name@, i as int),
                None => forall|i: int| !self.has_at(name@, i),
            },
    {
        let mut i: usize = 0;
        while i < self.entries.len()
            invariant
                0 <= i <= self.entries@.len(),
                forall|j: int| 0 <= j < i ==> !self.has_at(name@, j),
            decreases self.entries@.len() - i,
        {
            let n = str_chars(self.entries[i].name.as_str());
            if chars_equal(n.as_slice(), name) {
                return Some(i);
            }
            i = i + 1;
        }
        None
    }

    /// Whether a file of that (normalized) name is present.
    pub fn contains_key(&self, name: &str) -> (r: bool)
        ensures
            r == self@.contains_key(name@),
    {
        let n = str_chars(name);
        match self.position(n.as_slice()) {
            Some(_) => true,
            None => false,
        }
    }

    /// The entry of that name, if present.
    pub fn get(&self, name: &str) -> (r: Option<&PackFile>)
        requires
            self.wf(),
        ensures
            match r {
                Some(f) => self@.contains_key(name@) && f.name@ == name@ && self@[name@] == (
                    f.offset,
                    f.size,
                ),
                None => !self@.contains_key(name@),
            },
    {
        let n = str_chars(name);
        match self.position(n.as_slice()) {
            Some(i) => {
                proof {
                    self.lemma_view_at(i as int);
                }
                Some(&self.entries[i])
            },
            None => None,
        }
    }

    /// Add a file, replacing an entry of the same name.
    pub fn insert(&mut self, file: PackFile)
        requires
            old(self).wf(),
        ensures
            final(self).wf(),
            final(self)@ == old(self)@.insert(file.name@, (file.offset, file.size)),
    {
        let n = str_chars(file.name.as_str());
        let ghost k = file.name@;
        let ghost v = (file.offset, file.size);
        let ghost before = *old(self);
        match self.position(n.as_slice()) {
            Some(i) => {
                self.entries.set(i, file);
                assert(self.wf());
                assert forall|key: Seq<char>| #[trigger]
                    self@.contains_key(key) <==> before@.insert(k, v).contains_key(key) by {
                    if key == k {
                        assert(self.has_at(k, i as int));
                    } else if self@.contains_key(key) {
                        let j = choose|j: int| self.has_at(key, j);
                        assert(before.has_at(key, j));
                    } else if before@.contains_key(key) {
                        let j = choose|j: int| before.has_at(key, j);
                        assert(self.has_at(key, j));
                    }
                }
                assert forall|key: Seq<char>| #[trigger]
                    self@.contains_key(key) implies self@[key] == before@.insert(k, v)[key] by {
                    let j = choose|j: int| self.has_at(key, j);
                    self.lemma_view_at(j);
                    if key != k {
                        assert(before.has_at(key, j));
                        before.lemma_view_at(j);
                    }
                }
                assert(self@ =~= before@.insert(k, v));
            },
            None => {
                self.entries.push(file);
                let ghost last = (self.entries@.len() - 1) as int;
                assert forall|j: int| 0 <= j < last implies self.entries@[j].name@ != k by {
                    assert(!before.has_at(k, j));
                }
                assert(self.wf());
                assert forall|key: Seq<char>| #[trigger]
                    self@.contains_key(key) <==> before@.insert(k, v).contains_key(key) by {
                    if key == k {
                        assert(self.has_at(k, last));
                    } else if self@.contains_key(key) {
                        let j = choose|j: int| self.has_at(key, j);
                        assert(before.has_at(key, j));
                    } else if before@.contains_key(key) {
                        let j = choose|j: int| before.has_at(key, j);
                        assert(self.has_at(key, j));
                    }
                }
                assert forall|key: Seq<char>| #[trigger]
                    self@.contains_key(key) implies self@[key] == before@.insert(k, v)[key] by {
                    let j = choose|j: int| self.has_at(key, j);
                    self.lemma_view_at(j);
                    if key != k {
                        assert(before.has_at(key, j));
                        before.lemma_view_at(j);
                    }
                }
                assert(self@ =~= before@.insert(k, v));
            },
        }
    }
}

// ---------------------------------------------------------------------------
// PAK parsing
// ---------------------------------------------------------------------------

/// `k` is where the NUL-padded name in `raw` ends: no NUL before it, and a
/// NUL or the end of the field at it.
pub open spec fn is_name_end(raw: Seq<u8>, k: int) -> bool {
    &&& 0 <= k <= raw.len()
    &&& forall|j: int| 0 <= j < k ==> raw[j] != 0
    &&& (k == raw.len() || raw[k] == 0)
}

/// Length of the name stored in a NUL-padded field.
pub open spec fn name_field_len(raw: Seq<u8>) -> int {
    choose|k: int| is_name_end(raw, k)
}

proof fn lemma_name_end_unique(raw: Seq<u8>, k: int)
    requires
        is_name_end(raw, k),
    ensures
        name_field_len(raw) == k,
{
    let c = name_field_len(raw);
    assert(is_name_end(raw, c));
    if c < k {
        assert(raw[c] != 0);
    } else if c > k {
        assert(raw[k] != 0);
    }
}

/// The normalized name of the directory entry at `pos`.
pub open spec fn entry_name(data: Seq<u8>, pos: int) -> Seq<char> {
    let raw = data.subrange(pos, pos + 56);
    normalized(utf8_lossy(raw.take(name_field_len(raw))))
}

/// The (offset, size) of the directory entry at `pos`.
pub open spec fn entry_value(data: Seq<u8>, pos: int) -> (u32, u32) {
    (u32_at(data, pos + 56) as u32, u32_at(data, pos + 60) as u32)
}

/// The directory after inserting the first `n` entries found at
/// `dir_offset`, each replacing any earlier entry of the same name.
pub open spec fn pak_directory(data: Seq<u8>, dir_offset: int, n: nat) -> Map<
    Seq<char>,
    (u32, u32),
>
    decreases n,
{
    if n == 0 {
        Map::empty()
    } else {
        let pos = dir_offset + 64 * (n - 1);
        pak_directory(data, dir_offset, (n - 1) as nat).insert(
            entry_name(data, pos),
            entry_value(data, pos),
        )
    }
}

/// The magic word of a PAK header.
pub open spec fn pak_magic(data: Seq<u8>) -> int {
    u32_at(data, 0)
}

/// Where the directory starts.
pub open spec fn pak_dir_offset(data: Seq<u8>) -> int {
    u32_at(data, 4)
}

/// The directory's length in bytes.
pub open spec fn pak_dir_len(data: Seq<u8>) -> int {
    u32_at(data, 8)
}

/// The header is complete and describes an acceptable directory.
pub open spec fn pak_header_ok(data: Seq<u8>) -> bool {
    &&& data.len() >= 12
    &&& pak_magic(data) == PAK_MAGIC
    &&& pak_dir_len(data) % 64 == 0
    &&& pak_dir_len(data) / 64 <= 4096
}

/// Index of the first directory entry that does not fit in `len` bytes.
pub open spec fn first_short_entry(len: int, dir_offset: int) -> int {
    if dir_offset > len { 0 } else { (len - dir_offset) / 64 }
}

/// `r` is what parsing the PAK `data`, known by `name`, must give.
pub open spec fn pak_parse_result(name: Seq<char>, data: Seq<u8>, r: Q2Result<PackDirectory>) -> bool {
    let len = data.len() as int;
    let magic = pak_magic(data);
    let off = pak_dir_offset(data);
    let dir_len = pak_dir_len(data);
    let n = dir_len / 64;
    if len < 12 {
        is_drop(r, name + ": data too small for PAK header"@)
    } else if magic != PAK_MAGIC {
        is_drop(r, name + ": not a PAK file (magic: 0x"@ + hex8(magic as u32, false) + ")"@)
    } else if dir_len % 64 != 0 {
        is_drop(r, name + ": invalid PAK directory length "@ + decimal(dir_len as nat))
    } else if n > 4096 {
        is_drop(r, name + ": too many files ("@ + decimal(n as nat) + " > 4096)"@)
    } else if n == 0 || off + 64 * n <= len {
        r matches Ok(dir) && dir.wf() && dir@ == pak_directory(data, off, n as nat)
    } else if off + 64 * first_short_entry(len, off) + 56 > len {
        is_drop_with_prefix(r, name + ": truncated directory: "@)
    } else {
        is_drop_with_prefix(r, "read error: "@)
    }
}

fn nul_position(raw: &Vec<u8>) -> (k: usize)
    ensures
        is_name_end(raw@, k as int),
{
    let mut k: usize = 0;
    while k < raw.len() && raw[k] != 0
        invariant
            0 <= k <= raw@.len(),
            forall|j: int| 0 <= j < k ==> raw@[j] != 0,
        decreases raw@.len() - k,
    {
        k = k + 1;
    }
    k
}

/// `name` followed by `rest`, as a drop error.
fn drop_error(name: &str, rest: &str) -> (r: Q2Error)
    ensures
        r matches Q2Error::Drop(m) && m@ == name@ + rest@,
{
    Q2Error::Drop(joined(name, rest))
}

/// Parse the header and directory of a PAK archive.
pub fn parse_pack_data(name: &str, data: &[u8]) -> (r: Q2Result<PackDirectory>)
    ensures
        pak_parse_result(name@, data@, r),
{
    if data.len() < 12 {
        return Err(drop_error(name, ": data too small for PAK header"));
    }
    let magic = match read_u32_le(data) {
        Ok(v) => v,
        Err(e) => return Err(e),
    };
    if magic != PAK_MAGIC {
        let mut m = str_chars(name);
        push_str_chars(&mut m, ": not a PAK file (magic: 0x");
        push_hex8(&mut m, magic, false);
        push_str_chars(&mut m, ")");
        return Err(Q2Error::Drop(string_from_chars(m.as_slice())));
    }
    let dir_offset = match read_u32_le(bytes_from(data, 4)) {
        Ok(v) => v,
        Err(e) => return Err(e),
    };
    let dir_len = match read_u32_le(bytes_from(data, 8)) {
        Ok(v) => v,
        Err(e) => return Err(e),
    };
    assert(dir_offset == pak_dir_offset(data@));
    assert(dir_len == pak_dir_len(data@));
    if dir_len % PAK_DIR_ENTRY_SIZE != 0 {
        let mut m = str_chars(name);
        push_str_chars(&mut m, ": invalid PAK directory length ");
        push_decimal(&mut m, dir_len as u64);
        return Err(Q2Error::Drop(string_from_chars(m.as_slice())));
    }
    let num_files = (dir_len / PAK_DIR_ENTRY_SIZE) as usize;
    if num_files > MAX_FILES_IN_PACK {
        let mut m = str_chars(name);
        push_str_chars(&mut m, ": too many files (");
        push_decimal(&mut m, num_files as u64);
        push_str_chars(&mut m, " > 4096)");
        return Err(Q2Error::Drop(string_from_chars(m.as_slice())));
    }
    let ghost d = data@;
    let ghost len = data@.len() as int;
    let mut dir = PackDirectory::new();
    let mut i: usize = 0;
    while i < num_files
        invariant
            d == data@,
            len == data@.len(),
            pak_header_ok(d),
            dir_offset == pak_dir_offset(d),
            num_files == pak_dir_len(d) / 64,
            num_files <= 4096,
            i <= num_files,
            i > 0 ==> dir_offset + 64 * i <= len,
            dir.wf(),
            dir@ == pak_directory(d, dir_offset as int, i as nat),
        decreases num_files - i,
    {
        let pos: u64 = dir_offset as u64 + 64 * (i as u64);
        let ghost gp = pos as int;
        assert(i as int == first_short_entry(len, dir_offset as int) ==> gp + 64 > len);
        let mut name_buf: Vec<u8> = Vec::new();
        let mut z: usize = 0;
        while z < PAK_ENTRY_NAME_LEN
            invariant
                z <= 56,
                name_buf@.len() == z,
            decreases 56 - z,
        {
            name_buf.push(0);
            z = z + 1;
        }
        match read_exact_into(bytes_from(data, pos), &mut name_buf) {
            Ok(()) => {},
            Err(e) => {
                let t = io_error_text(&e);
                let mut m = str_chars(name);
                push_str_chars(&mut m, ": truncated directory: ");
                let ghost pre = m@;
                push_str_chars(&mut m, t.as_str());
                assert(m@.subrange(0, pre.len() as int) =~= pre);
                proof {
                    if i > 0 {
                        assert((len - dir_offset) / 64 == i);
                    }
                }
                return Err(Q2Error::Drop(string_from_chars(m.as_slice())));
            },
        }
        assert(name_buf@ =~= d.subrange(gp, gp + 56));
        let k = nul_position(&name_buf);
        proof {
            lemma_name_end_unique(name_buf@, k as int);
        }
        let nb = name_buf.as_slice();
        let field = &nb[0..k];
        assert(field@ =~= name_buf@.take(k as int));
        let file_name = bytes_to_string_lossy(field);
        let normalized_name = normalize_path(file_name.as_str());
        let offset = match read_u32_le(bytes_from(data, pos + 56)) {
            Ok(v) => v,
            Err(e) => {
                proof {
                    if i > 0 {
                        assert((len - dir_offset) / 64 == i);
                    }
                }
                return Err(e);
            },
        };
        let size = match read_u32_le(bytes_from(data, pos + 60)) {
            Ok(v) => v,
            Err(e) => {
                proof {
                    if i > 0 {
                        assert((len - dir_offset) / 64 == i);
                    }
                }
                return Err(e);
            },
        };
        assert(normalized_name@ == entry_name(d, gp));
        assert((offset, size) == entry_value(d, gp));
        dir.insert(PackFile { name: normalized_name, offset, size });
        i = i + 1;
    }
    Ok(dir)
}

// ---------------------------------------------------------------------------
// Archives
// ---------------------------------------------------------------------------

/// A loaded PAK archive.
#[derive(Debug)]
pub struct Pack {
    /// Where the archive came from (a path, or the name it was loaded as).
    pub path: String,
    /// Its directory.
    pub files: PackDirectory,
    /// The whole archive, when it was loaded from memory.
    data: Option<Vec<u8>>,
}

/// What reading `size` bytes at `offset` of the in-memory archive `bytes`
/// must give.
pub open spec fn pack_read_result(
    path: Seq<char>,
    bytes: Seq<u8>,
    name: Seq<char>,
    offset: u32,
    size: u32,
    r: Q2Result<Vec<u8>>,
) -> bool {
    if offset + size > bytes.len() {
        is_drop(r, path + ": file '"@ + name + "' extends past end of PAK"@)
    } else {
        r matches Ok(v) && v@ == bytes.subrange(offset as int, offset + size)
    }
}

impl Pack {
    /// The archive's directory.
    pub closed spec fn directory(&self) -> PackDirectory {
        self.files
    }

    /// Where the archive came from.
    pub closed spec fn source(&self) -> Seq<char> {
        self.path@
    }

    /// The archive's bytes, for an archive loaded from memory.
    pub closed spec fn bytes(&self) -> Option<Seq<u8>> {
        match self.data {
            Some(v) => Some(v@),
            None => None,
        }
    }

    /// Load a PAK from an in-memory buffer.
    pub fn load_from_bytes(name: &str, data: &[u8]) -> (r: Q2Result<Self>)
        ensures
            pak_parse_result(
                name@,
                data@,
                match r {
                    Ok(p) => Ok(p.directory()),
                    Err(e) => Err(e),
                },
            ),
            r matches Ok(p) ==> p.source() == name@ && p.bytes() == Some(data@),
    {
        match parse_pack_data(name, data) {
            Ok(files) => {
                let mut copy: Vec<u8> = Vec::new();
                crate::net_msg::append_bytes(&mut copy, data);
                let path = string_from_chars(str_chars(name).as_slice());
                Ok(Pack { path, files, data: Some(copy) })
            },
            Err(e) => Err(e),
        }
    }

    /// An archive read from disk: its directory, with the data left on disk.
    pub fn on_disk(path: String, files: PackDirectory) -> (r: Self)
        ensures
            r.source() == path@,
            r.directory() == files,
            r.bytes() is None,
    {
        Pack { path, files, data: None }
    }

    /// Whether the archive's bytes are held in memory.
    pub fn in_memory(&self) -> (r: bool)
        ensures
            r == self.bytes() is Some,
    {
        self.data.is_some()
    }

    /// Read a file out of an archive held in memory.
    pub fn read_file(&self, entry: &PackFile) -> (r: Q2Result<Vec<u8>>)
        requires
            self.bytes() is Some,
        ensures
            pack_read_result(
                self.source(),
                self.bytes()->0,
                entry.name@,
                entry.offset,
                entry.size,
                r,
            ),
    {
        let data = self.data.as_ref().unwrap();
        let end: u64 = entry.offset as u64 + entry.size as u64;
        if end > data.len() as u64 {
            let mut m = str_chars(self.path.as_str());
            push_str_chars(&mut m, ": file '");
            push_str_chars(&mut m, entry.name.as_str());
            push_str_chars(&mut m, "' extends past end of PAK");
            return Err(Q2Error::Drop(string_from_chars(m.as_slice())));
        }
        let all = data.as_slice();
        let part = &all[entry.offset as usize..end as usize];
        let mut out: Vec<u8> = Vec::new();
        crate::net_msg::append_bytes(&mut out, part);
        Ok(out)
    }
}

// ---------------------------------------------------------------------------
// Search path
// ---------------------------------------------------------------------------

/// A game directory on the search path, with the relative paths of the
/// files it held when it was added.
#[derive(Debug, Clone)]
pub struct GameDirectory {
    /// The directory.
    pub path: String,
    /// Relative paths of its files.
    pub files: Vec<String>,
}

/// A search path entry: a directory or an archive.
#[derive(Debug)]
pub enum SearchPath {
    Directory(GameDirectory),
    Pack(Pack),
}

/// The virtual filesystem.
#[derive(Debug)]
pub struct FileSystem {
    search_paths: Vec<SearchPath>,
    game_dir: String,
}

/// Search path `sp` holds a file under the normalized name `n`: a directory
/// holds it when one of its files' relative paths, with forward slashes and
/// no leading `./` but its letter case kept, is exactly `n`; an archive
/// when its directory has that name.
pub open spec fn path_has(sp: SearchPath, n: Seq<char>) -> bool {
    match sp {
        SearchPath::Directory(d) => exists|j: int|
            0 <= j < d.files@.len() && dir_entry_name(#[trigger] d.files@[j]@) == n,
        SearchPath::Pack(p) => p.directory()@.contains_key(n),
    }
}

/// Search path `sp` lists `n`: a directory lists the normalized forms of its
/// files, an archive its directory's names.
pub open spec fn path_lists(sp: SearchPath, n: Seq<char>) -> bool {
    match sp {
        SearchPath::Directory(d) => exists|j: int|
            0 <= j < d.files@.len() && normalized(#[trigger] d.files@[j]@) == n,
        SearchPath::Pack(p) => p.directory()@.contains_key(n),
    }
}

/// The names of `v`, in order.
pub open spec fn names_of(v: Seq<String>) -> Seq<Seq<char>> {
    v.map_values(|s: String| s@)
}

/// Each name sorts strictly before the next.
pub open spec fn strictly_sorted(v: Seq<Seq<char>>) -> bool {
    forall|i: int, j: int| 0 <= i < j < v.len() ==> lex_lt(v[i], v[j])
}

/// What `list_files` reports for `ext`: the names that some search path
/// lists and that end with `.` and the lowercased extension.
pub open spec fn listed(paths: Seq<SearchPath>, ext: Seq<char>, n: Seq<char>) -> bool {
    &&& ("."@ + lowercase(ext)).is_suffix_of(n)
    &&& exists|i: int| 0 <= i < paths.len() && path_lists(#[trigger] paths[i], n)
}

/// Insert `s` into the strictly sorted `v`, unless it is already there.
fn insert_sorted(v: &mut Vec<String>, s: String)
    requires
        strictly_sorted(names_of(old(v)@)),
    ensures
        strictly_sorted(names_of(final(v)@)),
        forall|n: Seq<char>| #[trigger] names_of(final(v)@).contains(n) <==> (names_of(old(v)@).contains(n) || n == s@),
{
    let sc = str_chars(s.as_str());
    let ghost old_names = names_of(v@);
    let mut p: usize = 0;
    while p < v.len()
        invariant
            0 <= p <= v@.len(),
            v@ == old(v)@,
            old_names == names_of(v@),
            sc@ == s@,
            forall|j: int| 0 <= j < p ==> lex_lt(old_names[j], s@),
        ensures
            p < v@.len() ==> !lex_lt(old_names[p as int], s@),
        decreases v@.len() - p,
    {
        let cur = str_chars(v[p].as_str());
        if !lex_less(cur.as_slice(), sc.as_slice()) {
            break;
        }
        p = p + 1;
    }
    if p < v.len() {
        let cur = str_chars(v[p].as_str());
        if chars_equal(cur.as_slice(), sc.as_slice()) {
            assert(old_names[p as int] == s@);
            assert forall|n: Seq<char>| #[trigger] names_of(v@).contains(n) <==> (old_names.contains(n) || n == s@) by {
                if n == s@ {
                    assert(names_of(v@)[p as int] == n);
                }
            }
            return;
        }
        proof {
            lemma_lex_lt_total(old_names[p as int], s@);
        }
    }
    let ghost sv = s@;
    v.insert(p, s);
    let ghost new_names = names_of(v@);
    assert(new_names =~= old_names.insert(p as int, sv));
    assert forall|i: int, j: int| 0 <= i < j < new_names.len() implies lex_lt(new_names[i], new_names[j]) by {
        if j < p {
        } else if j == p {
        } else if i < p {
            lemma_lex_lt_transitive(old_names[i], sv, old_names[p as int]);
            if j - 1 > p {
                lemma_lex_lt_transitive(old_names[i], old_names[p as int], old_names[j - 1]);
            }
        } else if i == p {
            if j - 1 > p {
                lemma_lex_lt_transitive(sv, old_names[p as int], old_names[j - 1]);
            }
        } else {
        }
    }
    assert forall|n: Seq<char>| #[trigger] new_names.contains(n) <==> (old_names.contains(n) || n == sv) by {
        if new_names.contains(n) {
            let k = choose|k: int| 0 <= k < new_names.len() && new_names[k] == n;
            if k < p {
                assert(old_names[k] == n);
            } else if k > p {
                assert(old_names[k - 1] == n);
            }
        }
        if old_names.contains(n) {
            let k = choose|k: int| 0 <= k < old_names.len() && old_names[k] == n;
            if k < p {
                assert(new_names[k] == n);
            } else {
                assert(new_names[k + 1] == n);
            }
        }
        if n == sv {
            assert(new_names[p as int] == n);
        }
    }
}

impl FileSystem {
    /// The search paths, lowest priority first.
    pub closed spec fn paths(&self) -> Seq<SearchPath> {
        self.search_paths@
    }

    /// The base game directory name.
    pub closed spec fn game_dir_name(&self) -> Seq<char> {
        self.game_dir@
    }

    /// An empty filesystem for the game directory `game_dir`.
    pub fn new(game_dir: &str) -> (r: Self)
        ensures
            r.paths() == Seq::<SearchPath>::empty(),
            r.game_dir_name() == game_dir@,
    {
        FileSystem {
            search_paths: Vec::new(),
            game_dir: string_from_chars(str_chars(game_dir).as_slice()),
        }
    }

    /// Add a loaded archive, searched before everything added so far.
    pub fn add_pack(&mut self, pack: Pack)
        ensures
            final(self).paths() == old(self).paths().push(SearchPath::Pack(pack)),
            final(self).game_dir_name() == old(self).game_dir_name(),
    {
        self.search_paths.push(SearchPath::Pack(pack));
    }

    /// Add a game directory, searched before everything added so far.
    pub fn add_directory(&mut self, dir: GameDirectory)
        ensures
            final(self).paths() == old(self).paths().push(SearchPath::Directory(dir)),
            final(self).game_dir_name() == old(self).game_dir_name(),
    {
        self.search_paths.push(SearchPath::Directory(dir));
    }

    /// The base game directory name.
    pub fn game_dir(&self) -> (r: &str)
        ensures
            r@ == self.game_dir_name(),
    {
        self.game_dir.as_str()
    }

    /// Number of search paths.
    pub fn search_path_count(&self) -> (r: usize)
        ensures
            r == self.paths().len(),
    {
        self.search_paths.len()
    }

    /// Search path `i`.
    pub fn search_path(&self, i: usize) -> (r: &SearchPath)
        requires
            i < self.paths().len(),
        ensures
            *r == self.paths()[i as int],
    {
        &self.search_paths[i]
    }

    /// The search path a file is loaded from: the most recently added one
    /// that holds it.
    pub fn locate(&self, path: &str) -> (r: Option<usize>)
        ensures
            match r {
                Some(i) => i < self.paths().len() && path_has(self.paths()[i as int], normalized(path@))
                    && forall|j: int|
                    i < j < self.paths().len() ==> !path_has(#[trigger] self.paths()[j], normalized(path@)),
                None => forall|j: int|
                    0 <= j < self.paths().len() ==> !path_has(#[trigger] self.paths()[j], normalized(path@)),
            },
    {
        let normalized_name = normalize_path(path);
        let nc = str_chars(normalized_name.as_str());
        let mut i: usize = self.search_paths.len();
        while i > 0
            invariant
                i <= self.search_paths@.len(),
                nc@ == normalized(path@),
                normalized_name@ == normalized(path@),
                forall|k: int| i <= k < self.search_paths@.len() ==> !path_has(#[trigger] self.search_paths@[k], nc@),
            decreases i,
        {
            i = i - 1;
            match &self.search_paths[i] {
                SearchPath::Directory(dir) => {
                    let mut j: usize = 0;
                    while j < dir.files.len()
                        invariant
                            i < self.search_paths@.len(),
                            nc@ == normalized(path@),
                            self.search_paths@[i as int] == SearchPath::Directory(*dir),
                            forall|k: int| i < k < self.search_paths@.len() ==> !path_has(#[trigger] self.search_paths@[k], nc@),
                            0 <= j <= dir.files@.len(),
                            forall|q: int| 0 <= q < j ==> dir_entry_name(#[trigger] dir.files@[q]@) != nc@,
                        decreases dir.files@.len() - j,
                    {
                        let f = dir_entry_chars(dir.files[j].as_str());
                        if chars_equal(f.as_slice(), nc.as_slice()) {
                            assert(dir_entry_name(self.search_paths@[i as int]->Directory_0.files@[j as int]@) == nc@);
                            assert(path_has(self.paths()[i as int], nc@));
                            return Some(i);
                        }
                        j = j + 1;
                    }
                },
                SearchPath::Pack(pack) => {
                    assert(self.search_paths@[i as int] == SearchPath::Pack(*pack));
                    if pack.files.contains_key(normalized_name.as_str()) {
                        assert(pack.directory()@.contains_key(nc@));
                        assert(path_has(self.paths()[i as int], nc@));
                        return Some(i);
                    }
                },
            }
        }
        None
    }

    /// Whether some search path holds the file.
    pub fn file_exists(&self, path: &str) -> (r: bool)
        ensures
            r == exists|i: int|
                0 <= i < self.paths().len() && path_has(#[trigger] self.paths()[i], normalized(path@)),
    {
        let normalized_name = normalize_path(path);
        let nc = str_chars(normalized_name.as_str());
        let mut i: usize = self.search_paths.len();
        while i > 0
            invariant
                i <= self.search_paths@.len(),
                nc@ == normalized(path@),
                normalized_name@ == normalized(path@),
                forall|k: int| i <= k < self.search_paths@.len() ==> !path_has(#[trigger] self.search_paths@[k], nc@),
            decreases i,
        {
            i = i - 1;
            match &self.search_paths[i] {
                SearchPath::Directory(dir) => {
                    let mut j: usize = 0;
                    while j < dir.files.len()
                        invariant
                            i < self.search_paths@.len(),
                            nc@ == normalized(path@),
                            self.search_paths@[i as int] == SearchPath::Directory(*dir),
                            0 <= j <= dir.files@.len(),
                            forall|q: int| 0 <= q < j ==> dir_entry_name(#[trigger] dir.files@[q]@) != nc@,
                        decreases dir.files@.len() - j,
                    {
                        let f = dir_entry_chars(dir.files[j].as_str());
                        if chars_equal(f.as_slice(), nc.as_slice()) {
                            assert(dir_entry_name(dir.files@[j as int]@) == nc@);
                            assert(dir_entry_name(self.search_paths@[i as int]->Directory_0.files@[j as int]@) == nc@);
                            assert(path_has(self.paths()[i as int], nc@));
                            return true;
                        }
                        j = j + 1;
                    }
                },
                SearchPath::Pack(pack) => {
                    assert(self.search_paths@[i as int] == SearchPath::Pack(*pack));
                    if pack.files.contains_key(normalized_name.as_str()) {
                        assert(pack.files@.contains_key(normalized_name@));
                        assert(nc@ == normalized_name@);
                        assert(pack.directory() == pack.files);
                        assert(pack.directory()@.contains_key(nc@));
                        assert(path_has(self.paths()[i as int], nc@));
                        return true;
                    }
                },
            }
        }
        false
    }

    /// The sorted, de-duplicated names of all files with the given extension.
    pub fn list_files(&self, extension: &str) -> (r: Vec<String>)
        ensures
            strictly_sorted(names_of(r@)),
            forall|n: Seq<char>| #[trigger] names_of(r@).contains(n) <==> listed(self.paths(), extension@, n),
    {
        let lower = to_lowercase(extension);
        let mut ext: Vec<char> = Vec::new();
        ext.push('.');
        push_str_chars(&mut ext, lower.as_str());
        assert(ext@ =~= "."@ + lowercase(extension@)) by {
            assert(seq!['.'] =~= "."@) by {
                reveal_strlit(".");
            }
        }
        let mut result: Vec<String> = Vec::new();
        let mut i: usize = self.search_paths.len();
        while i > 0
            invariant
                i <= self.search_paths@.len(),
                ext@ == "."@ + lowercase(extension@),
                strictly_sorted(names_of(result@)),
                forall|n: Seq<char>| #[trigger] names_of(result@).contains(n) <==> (ext@.is_suffix_of(n) && exists|k: int|
                    i <= k < self.search_paths@.len() && path_lists(#[trigger] self.search_paths@[k], n)),
            decreases i,
        {
            i = i - 1;
            let ghost before = names_of(result@);
            match &self.search_paths[i] {
                SearchPath::Directory(dir) => {
                    let mut j: usize = 0;
                    while j < dir.files.len()
                        invariant
                            0 <= j <= dir.files@.len(),
                            strictly_sorted(names_of(result@)),
                            forall|n: Seq<char>| #[trigger] names_of(result@).contains(n) <==> (before.contains(n) || (ext@.is_suffix_of(n) && exists|q: int|
                                0 <= q < j && normalized(#[trigger] dir.files@[q]@) == n)),
                        decreases dir.files@.len() - j,
                    {
                        let nm = normalize_path(dir.files[j].as_str());
                        let nmc = str_chars(nm.as_str());
                        if ends_with_chars(nmc.as_slice(), ext.as_slice()) {
                            let ghost nv = nm@;
                            insert_sorted(&mut result, nm);
                            assert forall|n: Seq<char>| #[trigger] names_of(result@).contains(n) <==> (before.contains(n) || (ext@.is_suffix_of(n) && exists|q: int|
                                0 <= q < j + 1 && normalized(#[trigger] dir.files@[q]@) == n)) by {
                                if n == nv {
                                    assert(normalized(dir.files@[j as int]@) == n);
                                }
                            }
                        } else {
                            assert forall|n: Seq<char>| #[trigger] names_of(result@).contains(n) <==> (before.contains(n) || (ext@.is_suffix_of(n) && exists|q: int|
                                0 <= q < j + 1 && normalized(#[trigger] dir.files@[q]@) == n)) by {
                                if ext@.is_suffix_of(n) && exists|q: int| 0 <= q < j + 1 && normalized(#[trigger] dir.files@[q]@) == n {
                                    let q = choose|q: int| 0 <= q < j + 1 && normalized(#[trigger] dir.files@[q]@) == n;
                                    if q == j {
                                        assert(n == nmc@);
                                    }
                                }
                            }
                        }
                        j = j + 1;
                    }
                },
                SearchPath::Pack(pack) => {
                    let entries = &pack.files.entries;
                    let mut j: usize = 0;
                    while j < entries.len()
                        invariant
                            0 <= j <= entries@.len(),
                            strictly_sorted(names_of(result@)),
                            forall|n: Seq<char>| #[trigger] names_of(result@).contains(n) <==> (before.contains(n) || (ext@.is_suffix_of(n) && exists|q: int|
                                0 <= q < j && #[trigger] entries@[q].name@ == n)),
                        decreases entries@.len() - j,
                    {
                        let nmc = str_chars(entries[j].name.as_str());
                        if ends_with_chars(nmc.as_slice(), ext.as_slice()) {
                            let nm = string_from_chars(nmc.as_slice());
                            let ghost nv = nm@;
                            insert_sorted(&mut result, nm);
                            assert forall|n: Seq<char>| #[trigger] names_of(result@).contains(n) <==> (before.contains(n) || (ext@.is_suffix_of(n) && exists|q: int|
                                0 <= q < j + 1 && #[trigger] entries@[q].name@ == n)) by {
                                if n == nv {
                                    assert(entries@[j as int].name@ == n);
                                }
                            }
                        } else {
                            assert forall|n: Seq<char>| #[trigger] names_of(result@).contains(n) <==> (before.contains(n) || (ext@.is_suffix_of(n) && exists|q: int|
                                0 <= q < j + 1 && #[trigger] entries@[q].name@ == n)) by {
                                if ext@.is_suffix_of(n) && exists|q: int| 0 <= q < j + 1 && #[trigger] entries@[q].name@ == n {
                                    let q = choose|q: int| 0 <= q < j + 1 && #[trigger] entries@[q].name@ == n;
                                    if q == j {
                                        assert(n == nmc@);
                                    }
                                }
                            }
                        }
                        j = j + 1;
                    }
                    assert forall|n: Seq<char>| #[trigger] path_lists(self.search_paths@[i as int], n) <==> exists|q: int|
                        0 <= q < entries@.len() && #[trigger] entries@[q].name@ == n by {
                        if pack.files@.contains_key(n) {
                            let q = choose|q: int| pack.files.has_at(n, q);
                            assert(entries@[q].name@ == n);
                        }
                        if exists|q: int| 0 <= q < entries@.len() && #[trigger] entries@[q].name@ == n {
                            let q = choose|q: int| 0 <= q < entries@.len() && #[trigger] entries@[q].name@ == n;
                            assert(pack.files.has_at(n, q));
                        }
                    }
                },
            }
        }
        result
    }
}

} // verus!
