//! Decisions of the development server: which port to listen on and
//! whether a client may be sent the Brotli-compressed game data.

use vstd::prelude::*;
use crate::bundler::{contains_seq, contains_str};
use crate::text::str_chars;

verus! {

/// Port used when none is configured.
pub const DEFAULT_PORT: u16 = 8080;

/// Whether `c` is one of the decimal digits `0` to `9`.
pub open spec fn is_dec_digit(c: char) -> bool {
    '0' as u32 <= c as u32 <= '9' as u32
}

/// The number written by the decimal digits `d`.
pub open spec fn digits_value(d: Seq<char>) -> nat
    decreases d.len(),
{
    if d.len() == 0 {
        0
    } else {
        digits_value(d.drop_last()) * 10 + (d.last() as u32 - '0' as u32) as nat
    }
}

/// The text of an unsigned number: an optional `+`, then one or more
/// decimal digits and nothing else. Its value, when it fits in a `u16`.
pub open spec fn parsed_u16(s: Seq<char>) -> Option<u16> {
    let d = if s.len() > 0 && s[0] == '+' { s.drop_first() } else { s };
    if d.len() > 0 && (forall|i: int| 0 <= i < d.len() ==> is_dec_digit(#[trigger] d[i]))
        && digits_value(d) <= u16::MAX {
        Some(digits_value(d) as u16)
    } else {
        None
    }
}

/// `s.parse::<u16>().ok()`.
///
/// Claims what `u16::from_str` documents: the text must be an optional `+`
/// followed by decimal digits only, whose value fits in a `u16`; anything
/// else (empty text, a sign alone, other characters, too large a value)
/// fails.
#[verifier::external_body]
fn parse_u16(s: &str) -> (r: Option<u16>)
    ensures
        r == parsed_u16(s@),
{
    s.parse::<u16>().ok()
}

/// The configured port, or the default when it is missing or not a number.
pub fn port_or_default(configured: Option<&str>) -> (r: u16)
    ensures
        r == match configured {
            Some(s) => match parsed_u16(s@) {
                Some(p) => p,
                None => DEFAULT_PORT,
            },
            None => DEFAULT_PORT,
        },
{
    match configured {
        Some(s) => match parse_u16(s) {
            Some(p) => p,
            None => DEFAULT_PORT,
        },
        None => DEFAULT_PORT,
    }
}

/// Whether an `Accept-Encoding` value admits Brotli: it mentions `br`.
pub fn accepts_brotli(accept_encoding: Option<&str>) -> (r: bool)
    ensures
        r == match accept_encoding {
            Some(v) => contains_seq(v@, "br"@),
            None => false,
        },
{
    match accept_encoding {
        Some(v) => {
            let c = str_chars(v);
            contains_str(c.as_slice(), "br")
        },
        None => false,
    }
}

/// Whether to send the Brotli variant: the client accepts it and it exists.
pub fn serve_brotli(accept_encoding: Option<&str>, brotli_exists: bool) -> (r: bool)
    ensures
        r == (brotli_exists && match accept_encoding {
            Some(v) => contains_seq(v@, "br"@),
            None => false,
        }),
{
    accepts_brotli(accept_encoding) && brotli_exists
}

} // verus!
