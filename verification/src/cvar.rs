//! Console variables: named string settings with flags that control
//! whether they are saved, sent to the server, locked, or changed only when
//! latched values are applied.

use vstd::prelude::*;
use crate::text::{
    chars_equal, lemma_lex_lt_total, lemma_lex_lt_transitive, lex_less, lex_lt,
    push_str_chars, starts_with_chars, str_chars, string_from_chars,
};

verus! {

// ---------------------------------------------------------------------------
// Flags and handles
// ---------------------------------------------------------------------------

/// Flags controlling a cvar's behaviour.
#[derive(Debug, Clone, Copy, PartialEq, Eq)]
pub struct CVarFlags {
    pub bits: u32,
}

pub const CVAR_ARCHIVE: u32 = 1;
pub const CVAR_USERINFO: u32 = 2;
pub const CVAR_SERVERINFO: u32 = 4;
pub const CVAR_NOSET: u32 = 8;
pub const CVAR_LATCH: u32 = 16;

impl CVarFlags {
    /// Saved to the config file.
    #[allow(non_snake_case)]
    pub fn ARCHIVE() -> (r: CVarFlags)
        ensures
            r.bits == CVAR_ARCHIVE,
    {
        CVarFlags { bits: CVAR_ARCHIVE }
    }

    /// Sent to the server on connect and change.
    #[allow(non_snake_case)]
    pub fn USERINFO() -> (r: CVarFlags)
        ensures
            r.bits == CVAR_USERINFO,
    {
        CVarFlags { bits: CVAR_USERINFO }
    }

    /// Sent in server info responses.
    #[allow(non_snake_case)]
    pub fn SERVERINFO() -> (r: CVarFlags)
        ensures
            r.bits == CVAR_SERVERINFO,
    {
        CVarFlags { bits: CVAR_SERVERINFO }
    }

    /// Cannot be changed by the user.
    #[allow(non_snake_case)]
    pub fn NOSET() -> (r: CVarFlags)
        ensures
            r.bits == CVAR_NOSET,
    {
        CVarFlags { bits: CVAR_NOSET }
    }

    /// A change waits until latched values are applied.
    #[allow(non_snake_case)]
    pub fn LATCH() -> (r: CVarFlags)
        ensures
            r.bits == CVAR_LATCH,
    {
        CVarFlags { bits: CVAR_LATCH }
    }

    pub fn empty() -> (r: Self)
        ensures
            r.bits == 0,
    {
        CVarFlags { bits: 0 }
    }

    pub fn bits(&self) -> (r: u32)
        ensures
            r == self.bits,
    {
        self.bits
    }

    pub fn contains(&self, other: Self) -> (r: bool)
        ensures
            r == (self.bits & other.bits == other.bits),
    {
        self.bits & other.bits == other.bits
    }

    pub fn union(self, other: Self) -> (r: Self)
        ensures
            r.bits == self.bits | other.bits,
    {
        CVarFlags { bits: self.bits | other.bits }
    }
}

impl core::ops::BitOr for CVarFlags {
    type Output = CVarFlags;

    fn bitor(self, other: Self) -> (r: Self)
        ensures
            r.bits == self.bits | other.bits,
    {
        self.union(other)
    }
}

impl vstd::std_specs::ops::BitOrSpecImpl for CVarFlags {
    open spec fn obeys_bitor_spec() -> bool {
        true
    }

    open spec fn bitor_req(self, rhs: Self) -> bool {
        true
    }

    open spec fn bitor_spec(self, rhs: Self) -> Self {
        CVarFlags { bits: self.bits | rhs.bits }
    }
}

/// Refers to a registered cvar by its registration index.
#[derive(Debug, Clone, Copy, PartialEq, Eq)]
pub struct CVarHandle {
    pub index: usize,
}

impl CVarHandle {
    pub fn from_raw(index: usize) -> (r: Self)
        ensures
            r.index == index,
    {
        CVarHandle { index }
    }

    pub fn raw(&self) -> (r: usize)
        ensures
            r == self.index,
    {
        self.index
    }
}

// ---------------------------------------------------------------------------
// Model
// ---------------------------------------------------------------------------

/// One console variable.
pub struct CVarState {
    pub name: Seq<char>,
    pub string: Seq<char>,
    pub default_value: Seq<char>,
    pub flags: u32,
    pub latched: Option<Seq<char>>,
    pub modified: bool,
}

/// All console variables, in registration order.
pub struct CVarView {
    pub vars: Seq<CVarState>,
    pub userinfo_modified: bool,
}

/// `flag` is set in `flags`.
pub open spec fn has_flag(flags: u32, flag: u32) -> bool {
    flags & flag == flag
}

/// Position of the cvar called `name`.
pub open spec fn index_of_name(vars: Seq<CVarState>, name: Seq<char>) -> Option<int> {
    if exists|i: int| 0 <= i < vars.len() && #[trigger] vars[i].name == name {
        Some(choose|i: int| 0 <= i < vars.len() && #[trigger] vars[i].name == name)
    } else {
        None
    }
}

/// No two cvars share a name.
pub open spec fn names_distinct(vars: Seq<CVarState>) -> bool {
    forall|i: int, j: int| 0 <= i < j < vars.len() ==> vars[i].name != vars[j].name
}

/// A new cvar holding its default value.
pub open spec fn new_cvar(name: Seq<char>, default_value: Seq<char>, flags: u32) -> CVarState {
    CVarState {
        name,
        string: default_value,
        default_value,
        flags,
        latched: None,
        modified: false,
    }
}

/// Registering `name`: an existing cvar gains `flags` and keeps its value;
/// otherwise a new one is appended. Also gives the cvar's index.
pub open spec fn get_spec(v: CVarView, name: Seq<char>, default_value: Seq<char>, flags: u32) -> (
    CVarView,
    int,
) {
    match index_of_name(v.vars, name) {
        Some(i) => (
            CVarView {
                vars: v.vars.update(i, CVarState { flags: v.vars[i].flags | flags, ..v.vars[i] }),
                ..v
            },
            i,
        ),
        None => (CVarView { vars: v.vars.push(new_cvar(name, default_value, flags)), ..v }, v.vars.len() as int),
    }
}

/// Creating a cvar through `set` or `force_set`: registered with the value as
/// its default and no flags, and marked modified.
pub open spec fn create_spec(v: CVarView, name: Seq<char>, value: Seq<char>) -> CVarView {
    CVarView {
        vars: v.vars.push(CVarState { modified: true, ..new_cvar(name, value, 0) }),
        ..v
    }
}

/// The cvar with a new value, marked modified.
pub open spec fn applied(c: CVarState, value: Seq<char>) -> CVarState {
    CVarState { string: value, modified: true, ..c }
}

/// `set`: a locked cvar keeps its value, a latched one records the value for
/// later, any other takes it (and a user-info change is noted).
pub open spec fn set_spec(v: CVarView, name: Seq<char>, value: Seq<char>) -> CVarView {
    match index_of_name(v.vars, name) {
        None => create_spec(v, name, value),
        Some(i) => {
            let c = v.vars[i];
            if has_flag(c.flags, CVAR_NOSET) {
                v
            } else if has_flag(c.flags, CVAR_LATCH) {
                CVarView { vars: v.vars.update(i, CVarState { latched: Some(value), ..c }), ..v }
            } else {
                CVarView {
                    vars: v.vars.update(i, applied(c, value)),
                    userinfo_modified: v.userinfo_modified || has_flag(c.flags, CVAR_USERINFO),
                }
            }
        },
    }
}

/// `force_set`: the value is taken whatever the flags, and a pending
/// latched value is dropped.
pub open spec fn force_set_spec(v: CVarView, name: Seq<char>, value: Seq<char>) -> CVarView {
    match index_of_name(v.vars, name) {
        None => create_spec(v, name, value),
        Some(i) => {
            let c = v.vars[i];
            CVarView {
                vars: v.vars.update(i, applied(CVarState { latched: None, ..c }, value)),
                userinfo_modified: v.userinfo_modified || has_flag(c.flags, CVAR_USERINFO),
            }
        },
    }
}

/// A cvar after its latched value, if any, is applied.
pub open spec fn latch_applied(c: CVarState) -> CVarState {
    match c.latched {
        Some(l) => CVarState { latched: None, ..applied(c, l) },
        None => c,
    }
}

/// `apply_latched`: every pending value takes effect.
pub open spec fn apply_latched_spec(v: CVarView) -> CVarView {
    CVarView { vars: v.vars.map_values(|c: CVarState| latch_applied(c)), ..v }
}

/// The `set name "value"` lines of the archived cvars, in order.
pub open spec fn archive_text(vars: Seq<CVarState>) -> Seq<char>
    decreases vars.len(),
{
    if vars.len() == 0 {
        Seq::empty()
    } else {
        let c = vars.last();
        archive_text(vars.drop_last()) + if has_flag(c.flags, CVAR_ARCHIVE) {
            "set "@ + c.name + " \""@ + c.string + "\"\n"@
        } else {
            Seq::empty()
        }
    }
}

/// The `\name\value` pairs of the cvars carrying `flag`, in order.
pub open spec fn info_text(vars: Seq<CVarState>, flag: u32) -> Seq<char>
    decreases vars.len(),
{
    if vars.len() == 0 {
        Seq::empty()
    } else {
        let c = vars.last();
        info_text(vars.drop_last(), flag) + if has_flag(c.flags, flag) {
            "\\"@ + c.name + "\\"@ + c.string
        } else {
            Seq::empty()
        }
    }
}

// ---------------------------------------------------------------------------
// Implementation
// ---------------------------------------------------------------------------

struct CVar {
    name: String,
    string: String,
    default_value: String,
    flags: CVarFlags,
    latched_string: Option<String>,
    modified: bool,
}

impl CVar {
    closed spec fn view(&self) -> CVarState {
        CVarState {
            name: self.name@,
            string: self.string@,
            default_value: self.default_value@,
            flags: self.flags.bits,
            latched: match self.latched_string {
                Some(s) => Some(s@),
                None => None,
            },
            modified: self.modified,
        }
    }
}

/// Central registry of console variables.
pub struct CVarSystem {
    vars: Vec<CVar>,
    userinfo_modified: bool,
}

spec fn state_of(vars: Seq<CVar>) -> Seq<CVarState> {
    vars.map_values(|c: CVar| c@)
}

impl CVarSystem {
    pub closed spec fn view(&self) -> CVarView {
        CVarView { vars: state_of(self.vars@), userinfo_modified: self.userinfo_modified }
    }

    /// No two cvars share a name.
    pub closed spec fn wf(&self) -> bool {
        names_distinct(self@.vars)
    }

    /// An empty registry.
    pub fn new() -> (r: Self)
        ensures
            r.wf(),
            r@.vars == Seq::<CVarState>::empty(),
            !r@.userinfo_modified,
    {
        let r = CVarSystem { vars: Vec::new(), userinfo_modified: false };
        assert(r@.vars =~= Seq::<CVarState>::empty());
        r
    }

    fn position(&self, name: &[char]) -> (r: Option<usize>)
        requires
            self.wf(),
        ensures
            match r {
                Some(i) => index_of_name(self@.vars, name@) == Some(i as int),
                None => index_of_name(self@.vars, name@) is None,
            },
    {
        let mut i: usize = 0;
        while i < self.vars.len()
            invariant
                0 <= i <= self.vars@.len(),
                self.wf(),
                forall|j: int| 0 <= j < i ==> self@.vars[j].name != name@,
            decreases self.vars@.len() - i,
        {
            let n = str_chars(self.vars[i].name.as_str());
            if chars_equal(n.as_slice(), name) {
                proof {
                    let vars = self@.vars;
                    assert(vars[i as int].name == name@);
                    let c = choose|k: int| 0 <= k < vars.len() && #[trigger] vars[k].name == name@;
                    if c != i as int {
                        if c < i {
                            assert(vars[c].name != vars[i as int].name);
                        } else {
                            assert(vars[i as int].name != vars[c].name);
                        }
                    }
                }
                return Some(i);
            }
            i = i + 1;
        }
        None
    }

    /// Replace cvar `i`, keeping its name.
    fn replace_at(&mut self, i: usize, c: CVar)
        requires
            old(self).wf(),
            i < old(self)@.vars.len(),
            c@.name == old(self)@.vars[i as int].name,
        ensures
            final(self).wf(),
            final(self)@ == (CVarView { vars: old(self)@.vars.update(i as int, c@), ..old(self)@ }),
    {
        let ghost cv = c@;
        let _old_c = self.vars.remove(i);
        self.vars.insert(i, c);
        assert(self@.vars =~= old(self)@.vars.update(i as int, cv));
    }

    /// Take cvar `i` out, leaving a placeholder with the same name.
    fn take_at(&mut self, i: usize) -> (r: CVar)
        requires
            old(self).wf(),
            i < old(self)@.vars.len(),
        ensures
            r@ == old(self)@.vars[i as int],
            final(self)@.vars.len() == old(self)@.vars.len(),
            final(self)@.vars[i as int].name == old(self)@.vars[i as int].name,
            forall|j: int| 0 <= j < old(self)@.vars.len() && j != i ==> final(self)@.vars[j] == old(self)@.vars[j],
            final(self).wf(),
            final(self)@.userinfo_modified == old(self)@.userinfo_modified,
    {
        let c = self.vars.remove(i);
        let placeholder = CVar {
            name: c.name.clone(),
            string: String::new(),
            default_value: String::new(),
            flags: CVarFlags { bits: 0 },
            latched_string: None,
            modified: false,
        };
        self.vars.insert(i, placeholder);
        proof {
            assert forall|a: int, b: int| 0 <= a < b < self@.vars.len() implies self@.vars[a].name
                != self@.vars[b].name by {
                assert(self@.vars[a].name == old(self)@.vars[a].name);
                assert(self@.vars[b].name == old(self)@.vars[b].name);
            }
        }
        c
    }

    /// Register a cvar, or add `flags` to an existing one (whose value is
    /// left unchanged).
    pub fn get(&mut self, name: &str, default_value: &str, flags: CVarFlags) -> (r: CVarHandle)
        requires
            old(self).wf(),
        ensures
            final(self).wf(),
            (final(self)@, r.index as int) == get_spec(old(self)@, name@, default_value@, flags.bits),
    {
        let n = str_chars(name);
        match self.position(n.as_slice()) {
            Some(i) => {
                let mut c = self.take_at(i);
                c.flags = CVarFlags { bits: c.flags.bits | flags.bits };
                self.replace_at(i, c);
                proof {
                    assert(self@.vars =~= old(self)@.vars.update(
                        i as int,
                        CVarState { flags: old(self)@.vars[i as int].flags | flags.bits, ..old(self)@.vars[i as int] },
                    ));
                }
                CVarHandle::from_raw(i)
            },
            None => {
                let index = self.vars.len();
                self.vars.push(
                    CVar {
                        name: string_from_chars(n.as_slice()),
                        string: string_from_chars(str_chars(default_value).as_slice()),
                        default_value: string_from_chars(str_chars(default_value).as_slice()),
                        flags,
                        latched_string: None,
                        modified: false,
                    },
                );
                proof {
                    assert(self@.vars =~= old(self)@.vars.push(new_cvar(name@, default_value@, flags.bits)));
                    assert forall|a: int, b: int| 0 <= a < b < self@.vars.len() implies self@.vars[a].name
                        != self@.vars[b].name by {
                        if b == index as int {
                            assert(old(self)@.vars[a].name != name@);
                        }
                    }
                }
                CVarHandle::from_raw(index)
            },
        }
    }

    fn create(&mut self, name: &[char], value: &str)
        requires
            old(self).wf(),
            index_of_name(old(self)@.vars, name@) is None,
        ensures
            final(self).wf(),
            final(self)@ == create_spec(old(self)@, name@, value@),
    {
        let index = self.vars.len();
        self.vars.push(
            CVar {
                name: string_from_chars(name),
                string: string_from_chars(str_chars(value).as_slice()),
                default_value: string_from_chars(str_chars(value).as_slice()),
                flags: CVarFlags { bits: 0 },
                latched_string: None,
                modified: true,
            },
        );
        proof {
            assert(self@.vars =~= create_spec(old(self)@, name@, value@).vars);
            assert forall|a: int, b: int| 0 <= a < b < self@.vars.len() implies self@.vars[a].name
                != self@.vars[b].name by {
                if b == index as int {
                    assert(old(self)@.vars[a].name != name@);
                }
            }
        }
    }

    /// Set a cvar by name, honouring `NOSET` and `LATCH`; an unknown name is
    /// created with no flags.
    pub fn set(&mut self, name: &str, value: &str)
        requires
            old(self).wf(),
        ensures
            final(self).wf(),
            final(self)@ == set_spec(old(self)@, name@, value@),
    {
        let n = str_chars(name);
        let index = match self.position(n.as_slice()) {
            Some(i) => i,
            None => {
                self.create(n.as_slice(), value);
                return;
            },
        };
        let flags = self.vars[index].flags;
        if flags.contains(CVarFlags::NOSET()) {
            return;
        }
        let mut c = self.take_at(index);
        if flags.contains(CVarFlags::LATCH()) {
            c.latched_string = Some(string_from_chars(str_chars(value).as_slice()));
            self.replace_at(index, c);
            proof {
                assert(self@.vars =~= set_spec(old(self)@, name@, value@).vars);
            }
            return;
        }
        c.string = string_from_chars(str_chars(value).as_slice());
        c.modified = true;
        self.replace_at(index, c);
        if flags.contains(CVarFlags::USERINFO()) {
            self.userinfo_modified = true;
        }
        proof {
            assert(self@.vars =~= set_spec(old(self)@, name@, value@).vars);
        }
    }

    /// Set a cvar by name whatever its flags; an unknown name is created
    /// with no flags.
    pub fn force_set(&mut self, name: &str, value: &str)
        requires
            old(self).wf(),
        ensures
            final(self).wf(),
            final(self)@ == force_set_spec(old(self)@, name@, value@),
    {
        let n = str_chars(name);
        let index = match self.position(n.as_slice()) {
            Some(i) => i,
            None => {
                self.create(n.as_slice(), value);
                return;
            },
        };
        let flags = self.vars[index].flags;
        let mut c = self.take_at(index);
        c.latched_string = None;
        c.string = string_from_chars(str_chars(value).as_slice());
        c.modified = true;
        self.replace_at(index, c);
        if flags.contains(CVarFlags::USERINFO()) {
            self.userinfo_modified = true;
        }
        proof {
            assert(self@.vars =~= force_set_spec(old(self)@, name@, value@).vars);
        }
    }

    /// The cvar's string value (empty for an unknown handle).
    pub fn string(&self, handle: CVarHandle) -> (r: &str)
        ensures
            handle.index < self@.vars.len() ==> r@ == self@.vars[handle.index as int].string,
            handle.index >= self@.vars.len() ==> r@ == Seq::<char>::empty(),
    {
        if handle.index < self.vars.len() {
            self.vars[handle.index].string.as_str()
        } else {
            proof {
                reveal_strlit("");
            }
            ""
        }
    }

    /// The cvar's name (empty for an unknown handle).
    pub fn name(&self, handle: CVarHandle) -> (r: &str)
        ensures
            handle.index < self@.vars.len() ==> r@ == self@.vars[handle.index as int].name,
            handle.index >= self@.vars.len() ==> r@ == Seq::<char>::empty(),
    {
        if handle.index < self.vars.len() {
            self.vars[handle.index].name.as_str()
        } else {
            proof {
                reveal_strlit("");
            }
            ""
        }
    }

    /// The cvar's flags (none for an unknown handle).
    pub fn flags(&self, handle: CVarHandle) -> (r: CVarFlags)
        ensures
            handle.index < self@.vars.len() ==> r.bits == self@.vars[handle.index as int].flags,
            handle.index >= self@.vars.len() ==> r.bits == 0,
    {
        if handle.index < self.vars.len() {
            self.vars[handle.index].flags
        } else {
            CVarFlags::empty()
        }
    }

    /// The value the cvar was first registered with (empty for an unknown
    /// handle).
    pub fn default_value(&self, handle: CVarHandle) -> (r: &str)
        ensures
            handle.index < self@.vars.len() ==> r@ == self@.vars[handle.index as int].default_value,
            handle.index >= self@.vars.len() ==> r@ == Seq::<char>::empty(),
    {
        if handle.index < self.vars.len() {
            self.vars[handle.index].default_value.as_str()
        } else {
            proof {
                reveal_strlit("");
            }
            ""
        }
    }

    /// Apply every latched value.
    pub fn apply_latched(&mut self)
        requires
            old(self).wf(),
        ensures
            final(self).wf(),
            final(self)@ == apply_latched_spec(old(self)@),
    {
        let mut i: usize = 0;
        while i < self.vars.len()
            invariant
                0 <= i <= self@.vars.len(),
                self@.vars.len() == old(self)@.vars.len(),
                self.wf(),
                self@.userinfo_modified == old(self)@.userinfo_modified,
                forall|j: int| 0 <= j < i ==> self@.vars[j] == latch_applied(old(self)@.vars[j]),
                forall|j: int| i <= j < self@.vars.len() ==> self@.vars[j] == old(self)@.vars[j],
            decreases self@.vars.len() - i,
        {
            if self.vars[i].latched_string.is_some() {
                let mut c = self.take_at(i);
                match c.latched_string {
                    Some(l) => {
                        c.string = l;
                        c.modified = true;
                    },
                    None => {},
                }
                c.latched_string = None;
                self.replace_at(i, c);
            }
            i = i + 1;
        }
        assert(self@.vars =~= apply_latched_spec(old(self)@).vars);
    }

    /// Whether a user-info cvar changed since the flag was last cleared.
    pub fn userinfo_modified(&self) -> (r: bool)
        ensures
            r == self@.userinfo_modified,
    {
        self.userinfo_modified
    }

    /// Clear the user-info-changed flag.
    pub fn clear_userinfo_modified(&mut self)
        requires
            old(self).wf(),
        ensures
            final(self).wf(),
            final(self)@ == (CVarView { userinfo_modified: false, ..old(self)@ }),
    {
        self.userinfo_modified = false;
    }

    /// The `set name "value"` lines of all archived cvars.
    pub fn write_archive(&self) -> (r: String)
        ensures
            r@ == archive_text(self@.vars),
    {
        let mut out: Vec<char> = Vec::new();
        let mut i: usize = 0;
        while i < self.vars.len()
            invariant
                0 <= i <= self@.vars.len(),
                out@ == archive_text(self@.vars.take(i as int)),
            decreases self@.vars.len() - i,
        {
            let c = &self.vars[i];
            assert(self@.vars.take(i + 1).drop_last() =~= self@.vars.take(i as int));
            if c.flags.contains(CVarFlags::ARCHIVE()) {
                push_str_chars(&mut out, "set ");
                push_str_chars(&mut out, c.name.as_str());
                push_str_chars(&mut out, " \"");
                push_str_chars(&mut out, c.string.as_str());
                push_str_chars(&mut out, "\"\n");
                assert(out@ =~= archive_text(self@.vars.take(i + 1)));
            } else {
                assert(out@ =~= archive_text(self@.vars.take(i + 1)));
            }
            i = i + 1;
        }
        assert(self@.vars.take(self@.vars.len() as int) =~= self@.vars);
        string_from_chars(out.as_slice())
    }

    /// Handle of the cvar called `name`, if registered.
    pub fn find(&self, name: &str) -> (r: Option<CVarHandle>)
        requires
            self.wf(),
        ensures
            match r {
                Some(h) => index_of_name(self@.vars, name@) == Some(h.index as int),
                None => index_of_name(self@.vars, name@) is None,
            },
    {
        let n = str_chars(name);
        match self.position(n.as_slice()) {
            Some(i) => Some(CVarHandle::from_raw(i)),
            None => None,
        }
    }

    /// The alphabetically first cvar name that starts with `partial`.
    pub fn complete(&self, partial: &str) -> (r: Option<String>)
        requires
            self.wf(),
        ensures
            r is None <==> !exists|i: int|
                0 <= i < self@.vars.len() && partial@.is_prefix_of(#[trigger] self@.vars[i].name),
            r matches Some(x) ==> {
                &&& exists|i: int| 0 <= i < self@.vars.len() && #[trigger] self@.vars[i].name == x@
                &&& partial@.is_prefix_of(x@)
                &&& forall|i: int|
                    0 <= i < self@.vars.len() && partial@.is_prefix_of(#[trigger] self@.vars[i].name)
                        && self@.vars[i].name != x@ ==> lex_lt(x@, self@.vars[i].name)
            },
    {
        let p = str_chars(partial);
        let mut best: Option<usize> = None;
        let mut k: usize = 0;
        while k < self.vars.len()
            invariant
                0 <= k <= self@.vars.len(),
                p@ == partial@,
                self.wf(),
                best is None ==> forall|j: int|
                    0 <= j < k ==> !p@.is_prefix_of(#[trigger] self@.vars[j].name),
                best matches Some(b) ==> {
                    &&& b < k
                    &&& p@.is_prefix_of(self@.vars[b as int].name)
                    &&& forall|j: int|
                        0 <= j < k && p@.is_prefix_of(#[trigger] self@.vars[j].name) && j != b
                            ==> lex_lt(self@.vars[b as int].name, self@.vars[j].name)
                },
            decreases self@.vars.len() - k,
        {
            let nk = str_chars(self.vars[k].name.as_str());
            if starts_with_chars(nk.as_slice(), p.as_slice()) {
                match best {
                    None => {
                        best = Some(k);
                    },
                    Some(b) => {
                        let nb = str_chars(self.vars[b].name.as_str());
                        if lex_less(nk.as_slice(), nb.as_slice()) {
                            proof {
                                assert forall|j: int|
                                    0 <= j < k + 1 && p@.is_prefix_of(#[trigger] self@.vars[j].name)
                                        && j != k implies lex_lt(nk@, self@.vars[j].name) by {
                                    if j != b {
                                        lemma_lex_lt_transitive(nk@, nb@, self@.vars[j].name);
                                    }
                                }
                            }
                            best = Some(k);
                        } else {
                            proof {
                                assert(self@.vars[b as int].name != self@.vars[k as int].name);
                                lemma_lex_lt_total(nk@, nb@);
                            }
                        }
                    },
                }
            }
            k = k + 1;
        }
        match best {
            None => None,
            Some(b) => {
                let r = string_from_chars(str_chars(self.vars[b].name.as_str()).as_slice());
                proof {
                    assert(self@.vars[b as int].name == r@);
                    assert forall|i: int|
                        0 <= i < self@.vars.len() && partial@.is_prefix_of(#[trigger] self@.vars[i].name)
                            && self@.vars[i].name != r@ implies lex_lt(r@, self@.vars[i].name) by {
                        assert(i != b);
                    }
                }
                Some(r)
            },
        }
    }

    fn build_info_string(&self, flag: CVarFlags) -> (r: String)
        ensures
            r@ == info_text(self@.vars, flag.bits),
    {
        let mut out: Vec<char> = Vec::new();
        let mut i: usize = 0;
        while i < self.vars.len()
            invariant
                0 <= i <= self@.vars.len(),
                out@ == info_text(self@.vars.take(i as int), flag.bits),
            decreases self@.vars.len() - i,
        {
            let c = &self.vars[i];
            assert(self@.vars.take(i + 1).drop_last() =~= self@.vars.take(i as int));
            if c.flags.contains(flag) {
                out.push('\\');
                push_str_chars(&mut out, c.name.as_str());
                out.push('\\');
                push_str_chars(&mut out, c.string.as_str());
                assert(seq!['\\'] =~= "\\"@) by {
                    reveal_strlit("\\");
                }
                assert(out@ =~= info_text(self@.vars.take(i + 1), flag.bits));
            } else {
                assert(out@ =~= info_text(self@.vars.take(i + 1), flag.bits));
            }
            i = i + 1;
        }
        assert(self@.vars.take(self@.vars.len() as int) =~= self@.vars);
        string_from_chars(out.as_slice())
    }

    /// The `\key\value` pairs of all user-info cvars.
    pub fn userinfo_string(&self) -> (r: String)
        ensures
            r@ == info_text(self@.vars, CVAR_USERINFO),
    {
        self.build_info_string(CVarFlags::USERINFO())
    }

    /// The `\key\value` pairs of all server-info cvars.
    pub fn serverinfo_string(&self) -> (r: String)
        ensures
            r@ == info_text(self@.vars, CVAR_SERVERINFO),
    {
        self.build_info_string(CVarFlags::SERVERINFO())
    }
}

impl Default for CVarSystem {
    fn default() -> (r: Self)
        ensures
            r.wf(),
            r@.vars == Seq::<CVarState>::empty(),
            !r@.userinfo_modified,
    {
        Self::new()
    }
}

// ---------------------------------------------------------------------------
// Laws
// ---------------------------------------------------------------------------

proof fn lemma_index_of_name(vars: Seq<CVarState>, name: Seq<char>, i: int)
    requires
        names_distinct(vars),
        0 <= i < vars.len(),
        vars[i].name == name,
    ensures
        index_of_name(vars, name) == Some(i),
{
    let c = choose|k: int| 0 <= k < vars.len() && #[trigger] vars[k].name == name;
    assert(0 <= c < vars.len() && vars[c].name == name);
    if c < i {
        assert(vars[c].name != vars[i].name);
    } else if c > i {
        assert(vars[i].name != vars[c].name);
    }
}

/// Registering a name that is already registered gives its handle back,
/// keeps its value, and adds the new flags to the old ones.
pub proof fn law_get_existing_keeps_value(v: CVarView, name: Seq<char>, default_value: Seq<char>, flags: u32, i: int)
    requires
        names_distinct(v.vars),
        0 <= i < v.vars.len(),
        v.vars[i].name == name,
    ensures
        get_spec(v, name, default_value, flags).1 == i,
        get_spec(v, name, default_value, flags).0.vars.len() == v.vars.len(),
        get_spec(v, name, default_value, flags).0.vars[i].string == v.vars[i].string,
        get_spec(v, name, default_value, flags).0.vars[i].flags == v.vars[i].flags | flags,
{
    lemma_index_of_name(v.vars, name, i);
}

/// Registering the same name twice gives the same handle both times.
pub proof fn law_get_twice_same_handle(
    v: CVarView,
    name: Seq<char>,
    d1: Seq<char>,
    f1: u32,
    d2: Seq<char>,
    f2: u32,
)
    requires
        names_distinct(v.vars),
    ensures
        get_spec(get_spec(v, name, d1, f1).0, name, d2, f2).1 == get_spec(v, name, d1, f1).1,
{
    let (w, h) = get_spec(v, name, d1, f1);
    match index_of_name(v.vars, name) {
        Some(i) => {
            assert(w.vars[i].name == name);
            assert forall|a: int, b: int| 0 <= a < b < w.vars.len() implies w.vars[a].name != w.vars[b].name by {
                assert(w.vars[a].name == v.vars[a].name);
                assert(w.vars[b].name == v.vars[b].name);
            }
            lemma_index_of_name(w.vars, name, i);
        },
        None => {
            let n = v.vars.len() as int;
            assert(w.vars[n].name == name);
            assert forall|a: int, b: int| 0 <= a < b < w.vars.len() implies w.vars[a].name != w.vars[b].name by {
                if b == n {
                    assert(!(v.vars[a].name == name));
                }
            }
            lemma_index_of_name(w.vars, name, n);
        },
    }
}

/// A locked cvar is not changed by `set`.
pub proof fn law_noset_blocks_set(v: CVarView, name: Seq<char>, value: Seq<char>, i: int)
    requires
        names_distinct(v.vars),
        0 <= i < v.vars.len(),
        v.vars[i].name == name,
        has_flag(v.vars[i].flags, CVAR_NOSET),
    ensures
        set_spec(v, name, value) == v,
{
    lemma_index_of_name(v.vars, name, i);
}

/// `force_set` gives any registered cvar the value, whatever its flags.
pub proof fn law_force_set_takes_value(v: CVarView, name: Seq<char>, value: Seq<char>, i: int)
    requires
        names_distinct(v.vars),
        0 <= i < v.vars.len(),
        v.vars[i].name == name,
    ensures
        force_set_spec(v, name, value).vars[i].string == value,
        force_set_spec(v, name, value).vars[i].latched is None,
{
    lemma_index_of_name(v.vars, name, i);
}

/// Setting a latched cvar leaves its value unchanged until latched values
/// are applied, and then it has the new value.
pub proof fn law_latch_defers_until_applied(v: CVarView, name: Seq<char>, value: Seq<char>, i: int)
    requires
        names_distinct(v.vars),
        0 <= i < v.vars.len(),
        v.vars[i].name == name,
        !has_flag(v.vars[i].flags, CVAR_NOSET),
        has_flag(v.vars[i].flags, CVAR_LATCH),
    ensures
        set_spec(v, name, value).vars[i].string == v.vars[i].string,
        apply_latched_spec(set_spec(v, name, value)).vars[i].string == value,
{
    lemma_index_of_name(v.vars, name, i);
}

/// Setting a user-info cvar that is neither locked nor latched marks the
/// user info as modified.
pub proof fn law_userinfo_set_marks_modified(v: CVarView, name: Seq<char>, value: Seq<char>, i: int)
    requires
        names_distinct(v.vars),
        0 <= i < v.vars.len(),
        v.vars[i].name == name,
        !has_flag(v.vars[i].flags, CVAR_NOSET),
        !has_flag(v.vars[i].flags, CVAR_LATCH),
        has_flag(v.vars[i].flags, CVAR_USERINFO),
    ensures
        set_spec(v, name, value).userinfo_modified,
        set_spec(v, name, value).vars[i].string == value,
{
    lemma_index_of_name(v.vars, name, i);
}

/// No operation changes a registered cvar's default value.
pub proof fn law_default_value_is_kept(v: CVarView, name: Seq<char>, value: Seq<char>, flags: u32, i: int)
    requires
        names_distinct(v.vars),
        0 <= i < v.vars.len(),
    ensures
        get_spec(v, name, value, flags).0.vars[i].default_value == v.vars[i].default_value,
        set_spec(v, name, value).vars[i].default_value == v.vars[i].default_value,
        force_set_spec(v, name, value).vars[i].default_value == v.vars[i].default_value,
        apply_latched_spec(v).vars[i].default_value == v.vars[i].default_value,
{
}

} // verus!
