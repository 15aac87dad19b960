//! Entity-string parsing: the `{ "key" "value" ... }` blocks that a BSP map
//! carries to describe its entities.

use vstd::prelude::*;
use crate::text::{chars_equal, str_chars, string_from_chars};

verus! {

/// ASCII white space, as `char::is_ascii_whitespace` defines it.
pub open spec fn is_ascii_ws(c: char) -> bool {
    c == ' ' || c == '\t' || c == '\n' || c == '\u{c}' || c == '\r'
}

fn is_ascii_whitespace(c: char) -> (r: bool)
    ensures
        r == is_ascii_ws(c),
{
    c == ' ' || c == '\t' || c == '\n' || c == '\u{c}' || c == '\r'
}

/// First index at or after `i` that is not ASCII white space, or the end.
pub open spec fn skip_blank(s: Seq<char>, i: int) -> int
    decreases s.len() - i,
{
    if i < 0 || i >= s.len() {
        if i < 0 { 0 } else { i }
    } else if is_ascii_ws(s[i]) {
        skip_blank(s, i + 1)
    } else {
        i
    }
}

/// The text of a quoted string whose opening quote is just before `i`,
/// and the index after its closing quote (or the end): backslash-n stands
/// for a newline; any other backslash is kept.
pub open spec fn quoted_body(s: Seq<char>, i: int) -> (Seq<char>, int)
    decreases s.len() - i,
{
    if i < 0 || i >= s.len() {
        (Seq::empty(), if i < 0 { 0 } else { i })
    } else if s[i] == '"' {
        (Seq::empty(), i + 1)
    } else if s[i] == '\\' && i + 1 < s.len() && s[i + 1] == 'n' {
        let (r, e) = quoted_body(s, i + 2);
        (seq!['\n'] + r, e)
    } else {
        let (r, e) = quoted_body(s, i + 1);
        (seq![s[i]] + r, e)
    }
}

/// A quoted string starting at `i`; empty, consuming nothing, when no
/// double quote stands at `i`.
pub open spec fn quoted(s: Seq<char>, i: int) -> (Seq<char>, int) {
    if 0 <= i < s.len() && s[i] == '"' {
        quoted_body(s, i + 1)
    } else {
        (Seq::empty(), i)
    }
}

pub proof fn lemma_skip_blank_bounds(s: Seq<char>, i: int)
    requires
        0 <= i <= s.len(),
    ensures
        i <= skip_blank(s, i) <= s.len(),
    decreases s.len() - i,
{
    if i < s.len() && is_ascii_ws(s[i]) {
        lemma_skip_blank_bounds(s, i + 1);
    }
}

pub proof fn lemma_quoted_body_bounds(s: Seq<char>, i: int)
    requires
        0 <= i <= s.len(),
    ensures
        i <= quoted_body(s, i).1 <= s.len(),
    decreases s.len() - i,
{
    if i < s.len() && s[i] != '"' {
        if s[i] == '\\' && i + 1 < s.len() && s[i + 1] == 'n' {
            lemma_quoted_body_bounds(s, i + 2);
        } else {
            lemma_quoted_body_bounds(s, i + 1);
        }
    }
}

/// Keys that begin with an underscore are editor comments and are dropped.
pub open spec fn is_editor_key(k: Seq<char>) -> bool {
    k.len() > 0 && k[0] == '_'
}

/// The key/value pairs of an entity whose `{` is just before `i`, added to
/// `ent`, and the index after its `}` (or the end). A later value for a key
/// replaces an earlier one; a character other than a quote or `}` is skipped.
pub open spec fn entity_body(s: Seq<char>, i: int, ent: Map<Seq<char>, Seq<char>>) -> (
    Map<Seq<char>, Seq<char>>,
    int,
)
    decreases s.len() - i,
{
    if i < 0 || i > s.len() {
        (ent, i)
    } else {
        let j = skip_blank(s, i);
        proof {
            lemma_skip_blank_bounds(s, i);
        }
        if j >= s.len() {
            (ent, j)
        } else if s[j] == '}' {
            (ent, j + 1)
        } else if s[j] == '"' {
            let (k, a) = quoted(s, j);
            proof {
                lemma_quoted_body_bounds(s, j + 1);
                lemma_skip_blank_bounds(s, a);
            }
            let b = skip_blank(s, a);
            let (v, c) = quoted(s, b);
            proof {
                if 0 <= b < s.len() && s[b] == '"' {
                    lemma_quoted_body_bounds(s, b + 1);
                }
            }
            entity_body(s, c, if is_editor_key(k) { ent } else { ent.insert(k, v) })
        } else {
            entity_body(s, j + 1, ent)
        }
    }
}

/// The entities of `s` from index `i` on: each `{ ... }` block gives one
/// dictionary; empty blocks are dropped; anything but `{` ends the list.
pub open spec fn entities_from(s: Seq<char>, i: int) -> Seq<Map<Seq<char>, Seq<char>>>
    decreases s.len() - i,
{
    if i < 0 || i > s.len() {
        Seq::empty()
    } else {
        let j = skip_blank(s, i);
        proof {
            lemma_skip_blank_bounds(s, i);
        }
        if j < s.len() && s[j] == '{' {
            let (ent, e) = entity_body(s, j + 1, Map::empty());
            proof {
                lemma_entity_body_bounds(s, j + 1, Map::empty());
            }
            if ent.dom() != Set::<Seq<char>>::empty() {
                seq![ent] + entities_from(s, e)
            } else {
                entities_from(s, e)
            }
        } else {
            Seq::empty()
        }
    }
}

pub proof fn lemma_entity_body_bounds(s: Seq<char>, i: int, ent: Map<Seq<char>, Seq<char>>)
    requires
        0 <= i <= s.len(),
    ensures
        i <= entity_body(s, i, ent).1 <= s.len(),
    decreases s.len() - i,
{
    let j = skip_blank(s, i);
    lemma_skip_blank_bounds(s, i);
    if j < s.len() && s[j] != '}' {
        if s[j] == '"' {
            let (k, a) = quoted(s, j);
            lemma_quoted_body_bounds(s, j + 1);
            lemma_skip_blank_bounds(s, a);
            let b = skip_blank(s, a);
            let (v, c) = quoted(s, b);
            if 0 <= b < s.len() && s[b] == '"' {
                lemma_quoted_body_bounds(s, b + 1);
            }
            lemma_entity_body_bounds(
                s,
                c,
                if is_editor_key(k) { ent } else { ent.insert(k, v) },
            );
        } else {
            lemma_entity_body_bounds(s, j + 1, ent);
        }
    }
}

/// One entity's key/value dictionary.
pub struct EntityDict {
    keys: Vec<String>,
    values: Vec<String>,
}

/// The characters of each string.
pub open spec fn chars_of(v: Seq<String>) -> Seq<Seq<char>> {
    v.map_values(|t: String| t@)
}

impl View for EntityDict {
    type V = Map<Seq<char>, Seq<char>>;

    closed spec fn view(&self) -> Map<Seq<char>, Seq<char>> {
        Map::new(
            |k: Seq<char>| chars_of(self.keys@).contains(k),
            |k: Seq<char>| chars_of(self.values@)[chars_of(self.keys@).index_of(k)],
        )
    }
}

impl EntityDict {
    /// One value per key and no key twice.
    pub closed spec fn wf(&self) -> bool {
        &&& self.keys@.len() == self.values@.len()
        &&& chars_of(self.keys@).no_duplicates()
    }

    /// An empty dictionary.
    pub fn new() -> (r: Self)
        ensures
            r.wf(),
            r@ == Map::<Seq<char>, Seq<char>>::empty(),
    {
        let r = EntityDict { keys: Vec::new(), values: Vec::new() };
        assert(r@ =~= Map::<Seq<char>, Seq<char>>::empty());
        r
    }

    /// Position of `key`, if present.
    fn position(&self, key: &[char]) -> (r: Option<usize>)
        requires
            self.wf(),
        ensures
            r is None ==> !self@.contains_key(key@),
            r matches Some(k) ==> k < self.keys@.len() && self.keys@[k as int]@ == key@,
    {
        let mut i: usize = 0;
        while i < self.keys.len()
            invariant
                0 <= i <= self.keys@.len(),
                forall|j: int| 0 <= j < i ==> self.keys@[j]@ != key@,
            decreases self.keys@.len() - i,
        {
            let kc = str_chars(self.keys[i].as_str());
            if chars_equal(kc.as_slice(), key) {
                return Some(i);
            }
            i = i + 1;
        }
        proof {
            if chars_of(self.keys@).contains(key@) {
                let j = chars_of(self.keys@).index_of(key@);
                assert(self.keys@[j]@ == key@);
            }
        }
        None
    }

    /// Set `key` to `value`, replacing an earlier value.
    pub fn insert(&mut self, key: String, value: String)
        requires
            old(self).wf(),
        ensures
            final(self).wf(),
            final(self)@ == old(self)@.insert(key@, value@),
    {
        let kc = str_chars(key.as_str());
        match self.position(kc.as_slice()) {
            Some(k) => {
                let ghost ok = chars_of(self.keys@);
                let ghost ov = chars_of(self.values@);
                self.values.set(k, value);
                proof {
                    assert(chars_of(self.values@) =~= ov.update(k as int, value@));
                    assert(chars_of(self.keys@) == ok);
                    assert(ok[k as int] == key@);
                    assert(ok.contains(key@));
                    assert(self@.dom() =~= old(self)@.insert(key@, value@).dom());
                    assert forall|x: Seq<char>| #[trigger] self@.contains_key(x) implies self@[x]
                        == old(self)@.insert(key@, value@)[x] by {
                        let j = ok.index_of(x);
                        assert(0 <= j < ok.len() && ok[j] == x);
                        if x == key@ {
                            assert(j == k);
                        } else {
                            assert(j != k);
                        }
                    }
                    assert(self@ =~= old(self)@.insert(key@, value@));
                }
            },
            None => {
                let ghost ok = chars_of(self.keys@);
                let ghost ov = chars_of(self.values@);
                let ghost kv = key@;
                self.keys.push(key);
                self.values.push(value);
                proof {
                    assert(chars_of(self.keys@) =~= ok.push(kv));
                    assert(chars_of(self.values@) =~= ov.push(value@));
                    assert(!ok.contains(kv));
                    assert(ok.push(kv).no_duplicates()) by {
                        assert forall|a: int, b: int|
                            0 <= a < ok.len() + 1 && 0 <= b < ok.len() + 1 && a != b implies ok.push(
                            kv,
                        )[a] != ok.push(kv)[b] by {
                            if a == ok.len() {
                                assert(ok.push(kv)[b] == ok[b]);
                            } else if b == ok.len() {
                                assert(ok.push(kv)[a] == ok[a]);
                            }
                        }
                    }
                    assert forall|x: Seq<char>| #[trigger] ok.push(kv).contains(x) implies (x == kv
                        && ok.push(kv).index_of(x) == ok.len()) || (x != kv && ok.contains(x)
                        && ok.push(kv).index_of(x) == ok.index_of(x)) by {
                        let j = ok.push(kv).index_of(x);
                        if x != kv {
                            assert(ok.push(kv)[j] == x);
                            assert(j < ok.len());
                            assert(ok[j] == x);
                            assert(ok.contains(x));
                            let i2 = ok.index_of(x);
                            assert(ok.push(kv)[i2] == x);
                        } else {
                            if j < ok.len() {
                                assert(ok[j] == kv);
                            }
                        }
                    }
                    assert forall|x: Seq<char>| #[trigger] ok.push(kv).contains(x) == (ok.contains(x)
                        || x == kv) by {
                        if ok.contains(x) {
                            let j = ok.index_of(x);
                            assert(ok.push(kv)[j] == x);
                        }
                        if x == kv {
                            assert(ok.push(kv)[ok.len() as int] == kv);
                        }
                    }
                    assert(self@.dom() =~= old(self)@.insert(kv, value@).dom());
                    assert forall|x: Seq<char>| #[trigger] self@.contains_key(x) implies self@[x]
                        == old(self)@.insert(kv, value@)[x] by {
                        assert(ok.push(kv).contains(x));
                    }
                    assert(self@ =~= old(self)@.insert(kv, value@));
                }
            },
        }
    }

    /// The value stored under `key`.
    pub fn get(&self, key: &str) -> (r: Option<&String>)
        requires
            self.wf(),
        ensures
            r is None <==> !self@.contains_key(key@),
            r matches Some(v) ==> v@ == self@[key@],
    {
        let kc = str_chars(key);
        match self.position(kc.as_slice()) {
            Some(k) => {
                proof {
                    assert(chars_of(self.keys@)[k as int] == key@);
                    let j = chars_of(self.keys@).index_of(key@);
                    assert(chars_of(self.keys@)[j] == key@);
                }
                Some(&self.values[k])
            },
            None => None,
        }
    }

    /// Whether `key` is present.
    pub fn contains_key(&self, key: &str) -> (r: bool)
        requires
            self.wf(),
        ensures
            r == self@.contains_key(key@),
    {
        let kc = str_chars(key);
        match self.position(kc.as_slice()) {
            Some(k) => {
                assert(chars_of(self.keys@)[k as int] == key@);
                true
            },
            None => false,
        }
    }

    /// Number of keys.
    pub fn len(&self) -> (r: usize)
        requires
            self.wf(),
        ensures
            r == self@.dom().len(),
            self@.dom().finite(),
    {
        proof {
            vstd::seq_lib::seq_to_set_is_finite(chars_of(self.keys@));
            chars_of(self.keys@).unique_seq_to_set();
            assert(self@.dom() =~= chars_of(self.keys@).to_set());
        }
        self.keys.len()
    }
}

/// Advance past ASCII white space from `i`.
pub fn skip_whitespace(s: &[char], i: usize) -> (r: usize)
    requires
        i <= s@.len(),
    ensures
        r == skip_blank(s@, i as int),
{
    let mut j = i;
    while j < s.len() && is_ascii_whitespace(s[j])
        invariant
            i <= j <= s@.len(),
            skip_blank(s@, i as int) == skip_blank(s@, j as int),
        decreases s@.len() - j,
    {
        j = j + 1;
    }
    j
}

/// Parse a double-quoted string at `i`, giving its text and the index after
/// it; an empty string, consuming nothing, when no quote stands at `i`.
pub fn parse_quoted_string(s: &[char], i: usize) -> (r: (String, usize))
    requires
        i <= s@.len(),
    ensures
        (r.0@, r.1 as int) == quoted(s@, i as int),
{
    if i >= s.len() || s[i] != '"' {
        let e = string_from_chars(&[]);
        assert(e@ =~= Seq::<char>::empty());
        return (e, i);
    }
    let n = s.len();
    let mut j = i + 1;
    let mut acc: Vec<char> = Vec::new();
    while j < n && s[j] != '"'
        invariant
            n == s@.len(),
            i + 1 <= j <= n,
            acc@ + quoted_body(s@, j as int).0 == quoted_body(s@, i + 1).0,
            quoted_body(s@, j as int).1 == quoted_body(s@, i + 1).1,
        decreases n - j,
    {
        let ghost a0 = acc@;
        if s[j] == '\\' && j + 1 < n && s[j + 1] == 'n' {
            acc.push('\n');
            assert(a0 + quoted_body(s@, j as int).0 =~= acc@ + quoted_body(s@, j + 2).0);
            j = j + 2;
        } else {
            acc.push(s[j]);
            assert(a0 + quoted_body(s@, j as int).0 =~= acc@ + quoted_body(s@, j + 1).0);
            j = j + 1;
        }
    }
    let end = if j < n { j + 1 } else { j };
    assert(acc@ =~= acc@ + quoted_body(s@, j as int).0);
    (string_from_chars(acc.as_slice()), end)
}

/// Parse the key/value pairs of an entity whose `{` is just before `i`,
/// giving the dictionary and the index after its `}` (or the end).
fn parse_entity_body(s: &[char], start: usize) -> (r: (EntityDict, usize))
    requires
        start <= s@.len(),
    ensures
        r.0.wf(),
        (r.0@, r.1 as int) == entity_body(s@, start as int, Map::empty()),
{
    let n = s.len();
    let mut ent = EntityDict::new();
    let mut i = start;
    loop
        invariant
            n == s@.len(),
            i <= n,
            ent.wf(),
            entity_body(s@, i as int, ent@) == entity_body(s@, start as int, Map::empty()),
        decreases n - i,
    {
        let j = skip_whitespace(s, i);
        proof {
            lemma_skip_blank_bounds(s@, i as int);
        }
        if j >= n {
            return (ent, j);
        }
        if s[j] == '}' {
            return (ent, j + 1);
        }
        if s[j] == '"' {
            let (key, a) = parse_quoted_string(s, j);
            proof {
                lemma_quoted_body_bounds(s@, j + 1);
            }
            let b = skip_whitespace(s, a);
            proof {
                lemma_skip_blank_bounds(s@, a as int);
            }
            let (value, c) = parse_quoted_string(s, b);
            proof {
                if b < n && s@[b as int] == '"' {
                    lemma_quoted_body_bounds(s@, b + 1);
                }
            }
            let kc = str_chars(key.as_str());
            let editor = kc.len() > 0 && kc[0] == '_';
            if !editor {
                ent.insert(key, value);
            }
            i = c;
        } else {
            i = j + 1;
        }
    }
}

/// Parse an entity string into one dictionary per `{ ... }` block.
/// Keys that begin with an underscore are editor comments and are dropped.
pub fn parse_entity_string(entstring: &str) -> (r: Vec<EntityDict>)
    ensures
        forall|k: int| 0 <= k < r@.len() ==> (#[trigger] r@[k]).wf(),
        r@.map_values(|d: EntityDict| d@) == entities_from(entstring@, 0),
{
    let s = str_chars(entstring);
    let n = s.len();
    let mut result: Vec<EntityDict> = Vec::new();
    let mut i: usize = 0;
    loop
        invariant
            n == s@.len(),
            s@ == entstring@,
            i <= n,
            forall|k: int| 0 <= k < result@.len() ==> (#[trigger] result@[k]).wf(),
            result@.map_values(|d: EntityDict| d@) + entities_from(s@, i as int) == entities_from(
                s@,
                0,
            ),
        decreases n - i,
    {
        let j = skip_whitespace(s.as_slice(), i);
        proof {
            lemma_skip_blank_bounds(s@, i as int);
        }
        if j >= n || s[j] != '{' {
            assert(result@.map_values(|d: EntityDict| d@) + entities_from(s@, i as int)
                =~= result@.map_values(|d: EntityDict| d@));
            return result;
        }
        let ghost before = result@.map_values(|d: EntityDict| d@);
        let (ent, e) = parse_entity_body(s.as_slice(), j + 1);
        proof {
            lemma_entity_body_bounds(s@, j + 1, Map::empty());
        }
        if ent.len() > 0 {
            let ghost ev = ent@;
            result.push(ent);
            assert(result@.map_values(|d: EntityDict| d@) =~= before.push(ev));
            assert(ev.dom() != Set::<Seq<char>>::empty()) by {
                assert(ev.dom().len() > 0);
            }
            assert(before + entities_from(s@, i as int) =~= before.push(ev) + entities_from(
                s@,
                e as int,
            ));
        } else {
            proof {
                ent@.dom().lemma_len0_is_empty();
            }
        }
        i = e;
    }
}

// ---------------------------------------------------------------------------
// Player start
// ---------------------------------------------------------------------------

/// An entity that can serve as a player start: its classname and its
/// targetname (empty when it has none).
#[derive(Debug, Clone)]
pub struct SpawnCandidate {
    pub classname: String,
    pub targetname: String,
}

/// Spawn classnames, most preferred first.
pub open spec fn spawn_classnames() -> Seq<Seq<char>> {
    seq![
        "info_player_start"@,
        "info_player_deathmatch"@,
        "info_player_coop"@,
        "info_player_intermission"@,
        "misc_teleporter_dest"@,
    ]
}

/// Index of the first candidate from `j` on with classname `class` (and no
/// targetname, when `unnamed` is asked for).
pub open spec fn first_candidate(cands: Seq<SpawnCandidate>, class: Seq<char>, unnamed: bool, j: int) -> Option<int>
    decreases cands.len() - j,
{
    if j < 0 || j >= cands.len() {
        None
    } else if cands[j].classname@ == class && (!unnamed || cands[j].targetname@.len() == 0) {
        Some(j)
    } else {
        first_candidate(cands, class, unnamed, j + 1)
    }
}

/// The chosen start, looking at the classnames from position `t` of the
/// priority list on: for each classname an unnamed candidate first, then
/// any; failing all, the first candidate.
pub open spec fn pick_from(cands: Seq<SpawnCandidate>, t: int) -> Option<int>
    decreases 5 - t,
{
    if t < 0 || t >= 5 {
        if cands.len() > 0 { Some(0) } else { None }
    } else {
        match first_candidate(cands, spawn_classnames()[t], true, 0) {
            Some(i) => Some(i),
            None => match first_candidate(cands, spawn_classnames()[t], false, 0) {
                Some(i) => Some(i),
                None => pick_from(cands, t + 1),
            },
        }
    }
}

fn spawn_classname(t: usize) -> (r: &'static str)
    requires
        t < 5,
    ensures
        r@ == spawn_classnames()[t as int],
{
    if t == 0 {
        "info_player_start"
    } else if t == 1 {
        "info_player_deathmatch"
    } else if t == 2 {
        "info_player_coop"
    } else if t == 3 {
        "info_player_intermission"
    } else {
        "misc_teleporter_dest"
    }
}

fn find_candidate(cands: &[SpawnCandidate], class: &str, unnamed: bool) -> (r: Option<usize>)
    ensures
        r == match first_candidate(cands@, class@, unnamed, 0) {
            Some(i) => Some(i as usize),
            None => None::<usize>,
        },
{
    let c = str_chars(class);
    let mut j: usize = 0;
    while j < cands.len()
        invariant
            0 <= j <= cands@.len(),
            c@ == class@,
            first_candidate(cands@, class@, unnamed, 0) == first_candidate(cands@, class@, unnamed, j as int),
        decreases cands@.len() - j,
    {
        let n = str_chars(cands[j].classname.as_str());
        let t = str_chars(cands[j].targetname.as_str());
        if chars_equal(n.as_slice(), c.as_slice()) && (!unnamed || t.len() == 0) {
            return Some(j);
        }
        j = j + 1;
    }
    None
}

/// Choose the player start among the candidates: the first unnamed
/// candidate of the most preferred spawn classname present, else the first
/// named one of it, else the first candidate.
pub fn pick_spawn(cands: &[SpawnCandidate]) -> (r: Option<usize>)
    ensures
        r == match pick_from(cands@, 0) {
            Some(i) => Some(i as usize),
            None => None::<usize>,
        },
        r matches Some(i) ==> i < cands@.len(),
{
    let mut t: usize = 0;
    while t < 5
        invariant
            0 <= t <= 5,
            pick_from(cands@, 0) == pick_from(cands@, t as int),
        decreases 5 - t,
    {
        let class = spawn_classname(t);
        match find_candidate(cands, class, true) {
            Some(i) => {
                proof {
                    lemma_first_candidate_bounds(cands@, class@, true, 0);
                }
                return Some(i);
            },
            None => {},
        }
        match find_candidate(cands, class, false) {
            Some(i) => {
                proof {
                    lemma_first_candidate_bounds(cands@, class@, false, 0);
                }
                return Some(i);
            },
            None => {},
        }
        t = t + 1;
    }
    if cands.len() > 0 {
        Some(0)
    } else {
        None
    }
}

proof fn lemma_first_candidate_bounds(cands: Seq<SpawnCandidate>, class: Seq<char>, unnamed: bool, j: int)
    ensures
        first_candidate(cands, class, unnamed, j) matches Some(i) ==> j <= i < cands.len(),
    decreases cands.len() - j,
{
    if 0 <= j < cands.len() {
        lemma_first_candidate_bounds(cands, class, unnamed, j + 1);
    }
}

} // verus!
