//! Player connection helpers: reading fields of a userinfo string.

use vstd::prelude::*;
use crate::text::{chars_equal, str_chars, string_from_chars};

verus! {

/// The separator between the keys and values of an info string.
pub open spec fn is_info_sep(c: char) -> bool {
    c == '\\'
}

/// The fields of `s` read so far: the non-empty runs between separators that
/// are complete, and the run still being read.
pub open spec fn fields_scan(s: Seq<char>) -> (Seq<Seq<char>>, Seq<char>)
    decreases s.len(),
{
    if s.len() == 0 {
        (Seq::empty(), Seq::empty())
    } else {
        let (done, run) = fields_scan(s.drop_last());
        if is_info_sep(s.last()) {
            (if run.len() > 0 { done.push(run) } else { done }, Seq::empty())
        } else {
            (done, run.push(s.last()))
        }
    }
}

/// The non-empty pieces of `s` between separators, in order.
pub open spec fn info_fields(s: Seq<char>) -> Seq<Seq<char>> {
    let (done, run) = fields_scan(s);
    if run.len() > 0 { done.push(run) } else { done }
}

/// The value paired with `key` among the pairs of `fields` from index `i` on:
/// the fields are read two at a time (key, value), the first matching key
/// wins, and an unpaired last field is ignored.
pub open spec fn pair_lookup(fields: Seq<Seq<char>>, key: Seq<char>, i: int) -> Option<Seq<char>>
    decreases fields.len() - i,
{
    if i < 0 || i + 1 >= fields.len() {
        None
    } else if fields[i] == key {
        Some(fields[i + 1])
    } else {
        pair_lookup(fields, key, i + 2)
    }
}

/// The value of `key` in the userinfo string `info`.
pub open spec fn info_value(info: Seq<char>, key: Seq<char>) -> Option<Seq<char>> {
    pair_lookup(info_fields(info), key, 0)
}

/// Split `s` into its non-empty pieces between separators.
fn split_fields(s: &[char]) -> (r: Vec<Vec<char>>)
    ensures
        r@.len() == info_fields(s@).len(),
        forall|k: int| 0 <= k < r@.len() ==> #[trigger] r@[k]@ == info_fields(s@)[k],
{
    let mut done: Vec<Vec<char>> = Vec::new();
    let mut run: Vec<char> = Vec::new();
    let mut i: usize = 0;
    while i < s.len()
        invariant
            0 <= i <= s@.len(),
            done@.len() == fields_scan(s@.take(i as int)).0.len(),
            forall|k: int| 0 <= k < done@.len() ==> #[trigger] done@[k]@ == fields_scan(s@.take(i as int)).0[k],
            run@ == fields_scan(s@.take(i as int)).1,
        decreases s@.len() - i,
    {
        let c = s[i];
        proof {
            assert(s@.take(i + 1).drop_last() =~= s@.take(i as int));
            assert(s@.take(i + 1).last() == c);
        }
        if c == '\\' {
            if run.len() > 0 {
                let piece = run;
                done.push(piece);
                run = Vec::new();
            } else {
                run = Vec::new();
            }
        } else {
            run.push(c);
        }
        i = i + 1;
        proof {
            assert(run@ =~= fields_scan(s@.take(i as int)).1);
        }
    }
    proof {
        assert(s@.take(s@.len() as int) =~= s@);
    }
    if run.len() > 0 {
        done.push(run);
    }
    done
}

/// Extract the value of `key` from a userinfo string of the form
/// `\key\value\key\value`; the first pair with that key wins.
pub fn extract_info_value(userinfo: &str, key: &str) -> (r: Option<String>)
    ensures
        match r {
            Some(v) => info_value(userinfo@, key@) == Some(v@),
            None => info_value(userinfo@, key@) is None,
        },
{
    let chars = str_chars(userinfo);
    let target = str_chars(key);
    let fields = split_fields(chars.as_slice());
    let ghost fs = info_fields(userinfo@);
    let mut i: usize = 0;
    while i < fields.len() && i + 1 < fields.len()
        invariant
            fields@.len() == fs.len(),
            forall|k: int| 0 <= k < fields@.len() ==> #[trigger] fields@[k]@ == fs[k],
            target@ == key@,
            fs == info_fields(userinfo@),
            i <= fields@.len(),
            pair_lookup(fs, key@, i as int) == pair_lookup(fs, key@, 0),
        decreases fields@.len() - i,
    {
        let k = &fields[i];
        if chars_equal(k.as_slice(), target.as_slice()) {
            let v = string_from_chars(fields[i + 1].as_slice());
            return Some(v);
        }
        i = i + 2;
    }
    None
}

} // verus!
