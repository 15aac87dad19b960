//! Engine error type: drop (recoverable), fatal, quit, I/O and network errors.

use vstd::prelude::*;
use crate::text::{str_chars, string_from_chars};

verus! {

#[verifier::external_type_specification]
#[verifier::external_body]
pub struct ExIoError(std::io::Error);

/// The error raised by engine code.
#[derive(Debug)]
pub enum Q2Error {
    /// Print to console, disconnect, continue the main loop.
    Drop(String),
    /// Exit the entire game.
    Fatal(String),
    /// Clean shutdown requested.
    Quit,
    /// Wrapped I/O error.
    Io(std::io::Error),
    /// Network error.
    Net(String),
}

/// `r` is a drop error carrying the message `msg`.
pub open spec fn is_drop<T>(r: Result<T, Q2Error>, msg: Seq<char>) -> bool {
    match r {
        Err(Q2Error::Drop(m)) => m@ == msg,
        _ => false,
    }
}

/// `r` is a drop error whose message begins with `prefix`.
pub open spec fn is_drop_with_prefix<T>(r: Result<T, Q2Error>, prefix: Seq<char>) -> bool {
    match r {
        Err(Q2Error::Drop(m)) => prefix.is_prefix_of(m@),
        _ => false,
    }
}

/// Result of an engine operation.
pub type Q2Result<T> = Result<T, Q2Error>;

impl Q2Error {
    /// Only a drop error lets the frame loop continue.
    pub fn is_recoverable(&self) -> (r: bool)
        ensures
            r == (*self is Drop),
    {
        match self {
            Q2Error::Drop(_) => true,
            _ => false,
        }
    }
}

/// The display text of an I/O error (`format!("{}", e)`).
///
/// Claims nothing about the text: for operating-system errors it comes from
/// the platform's error messages.
#[verifier::external_body]
pub(crate) fn io_error_text(e: &std::io::Error) -> String {
    format!("{}", e)
}

/// `prefix` followed by `rest`.
pub fn joined(prefix: &str, rest: &str) -> (r: String)
    ensures
        r@ == prefix@ + rest@,
{
    let mut v = str_chars(prefix);
    let w = str_chars(rest);
    let mut i: usize = 0;
    while i < w.len()
        invariant
            0 <= i <= w@.len(),
            v@ == prefix@ + w@.take(i as int),
        decreases w@.len() - i,
    {
        v.push(w[i]);
        i = i + 1;
        assert(v@ =~= prefix@ + w@.take(i as int));
    }
    assert(w@.take(w@.len() as int) =~= w@);
    string_from_chars(v.as_slice())
}

impl Q2Error {
    /// The error's display text: `drop: <msg>`, `fatal: <msg>`, `quit`,
    /// `io: <error>` or `net: <msg>`.
    pub fn display_text(&self) -> (r: String)
        ensures
            match self {
                Q2Error::Drop(m) => r@ == "drop: "@ + m@,
                Q2Error::Fatal(m) => r@ == "fatal: "@ + m@,
                Q2Error::Quit => r@ == "quit"@,
                Q2Error::Io(_) => "io: "@.is_prefix_of(r@),
                Q2Error::Net(m) => r@ == "net: "@ + m@,
            },
    {
        match self {
            Q2Error::Drop(m) => joined("drop: ", m.as_str()),
            Q2Error::Fatal(m) => joined("fatal: ", m.as_str()),
            Q2Error::Quit => "quit".to_owned(),
            Q2Error::Io(e) => {
                let t = io_error_text(e);
                let r = joined("io: ", t.as_str());
                assert(("io: "@ + t@).subrange(0, "io: "@.len() as int) =~= "io: "@);
                r
            },
            Q2Error::Net(m) => joined("net: ", m.as_str()),
        }
    }
}

impl From<std::io::Error> for Q2Error {
    fn from(e: std::io::Error) -> (r: Q2Error)
        ensures
            r == Q2Error::Io(e),
    {
        Q2Error::Io(e)
    }
}

impl vstd::std_specs::convert::FromSpecImpl<std::io::Error> for Q2Error {
    open spec fn obeys_from_spec() -> bool {
        true
    }

    open spec fn from_spec(e: std::io::Error) -> Q2Error {
        Q2Error::Io(e)
    }
}

} // verus!
