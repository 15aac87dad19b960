//! Console command system: a registry of named handlers, a text buffer of
//! pending commands, and the tokenizer that splits a command line into words.

use vstd::prelude::*;
use crate::text::{
    chars_equal, is_whitespace, is_ws, lex_less, lex_lt, lemma_lex_lt_total, lemma_lex_lt_transitive, starts_with_chars, str_chars, string_from_chars,
};

verus! {

// ---------------------------------------------------------------------------
// Tokenizing
// ---------------------------------------------------------------------------

/// First index at or after `j` holding a double quote, or the end of `s`.
pub open spec fn quote_end(s: Seq<char>, j: int) -> int
    decreases s.len() - j,
{
    if j < 0 || j >= s.len() {
        s.len() as int
    } else if s[j] == '"' {
        j
    } else {
        quote_end(s, j + 1)
    }
}

/// First index at or after `j` holding white space, or the end of `s`.
pub open spec fn word_end(s: Seq<char>, j: int) -> int
    decreases s.len() - j,
{
    if j < 0 || j >= s.len() {
        s.len() as int
    } else if is_ws(s[j]) {
        j
    } else {
        word_end(s, j + 1)
    }
}

pub proof fn lemma_quote_end_bounds(s: Seq<char>, j: int)
    requires
        0 <= j <= s.len(),
    ensures
        j <= quote_end(s, j) <= s.len(),
        quote_end(s, j) < s.len() ==> s[quote_end(s, j)] == '"',
    decreases s.len() - j,
{
    if j < s.len() && s[j] != '"' {
        lemma_quote_end_bounds(s, j + 1);
    }
}

pub proof fn lemma_word_end_bounds(s: Seq<char>, j: int)
    requires
        0 <= j <= s.len(),
    ensures
        j <= word_end(s, j) <= s.len(),
    decreases s.len() - j,
{
    if j < s.len() && !is_ws(s[j]) {
        lemma_word_end_bounds(s, j + 1);
    }
}

/// The words of `s` from index `i` on: white space separates words, and a
/// word opened by a double quote runs to the next double quote (or the end)
/// and may hold white space; the quotes are not part of the word.
pub open spec fn tokens_from(s: Seq<char>, i: int) -> Seq<Seq<char>>
    decreases s.len() - i,
{
    if i < 0 || i >= s.len() {
        Seq::empty()
    } else if is_ws(s[i]) {
        tokens_from(s, i + 1)
    } else if s[i] == '"' {
        let e = quote_end(s, i + 1);
        proof {
            lemma_quote_end_bounds(s, i + 1);
        }
        seq![s.subrange(i + 1, e)] + tokens_from(s, if e < s.len() { e + 1 } else { e })
    } else {
        let e = word_end(s, i);
        proof {
            lemma_word_end_bounds(s, i + 1);
        }
        seq![s.subrange(i, e)] + tokens_from(s, e)
    }
}

/// The number of characters at the front of `t` before the first white
/// space.
pub open spec fn run_len(t: Seq<char>) -> nat
    decreases t.len(),
{
    if t.len() == 0 || is_ws(t[0]) {
        0
    } else {
        1 + run_len(t.drop_first())
    }
}

/// The maximal runs of characters other than white space in `t`, in order:
/// what splitting at white space gives.
pub open spec fn ws_runs(t: Seq<char>) -> Seq<Seq<char>>
    decreases t.len(),
{
    if t.len() == 0 {
        Seq::empty()
    } else if is_ws(t[0]) {
        ws_runs(t.drop_first())
    } else {
        let k = run_len(t);
        if 0 < k <= t.len() {
            seq![t.take(k as int)] + ws_runs(t.skip(k as int))
        } else {
            Seq::empty()
        }
    }
}

proof fn lemma_run_len(t: Seq<char>)
    ensures
        run_len(t) <= t.len(),
        t.len() > 0 && !is_ws(t[0]) ==> run_len(t) > 0,
    decreases t.len(),
{
    if t.len() > 0 && !is_ws(t[0]) {
        lemma_run_len(t.drop_first());
    }
}

proof fn lemma_word_end_is_run(s: Seq<char>, i: int)
    requires
        0 <= i <= s.len(),
    ensures
        word_end(s, i) == i + run_len(s.skip(i)),
    decreases s.len() - i,
{
    let t = s.skip(i);
    if i < s.len() {
        assert(t[0] == s[i]);
        if !is_ws(s[i]) {
            lemma_word_end_is_run(s, i + 1);
            assert(t.drop_first() =~= s.skip(i + 1));
        }
    } else {
        assert(t.len() == 0);
    }
}

proof fn lemma_tokens_are_runs(s: Seq<char>, i: int)
    requires
        0 <= i <= s.len(),
        !s.contains('"'),
    ensures
        tokens_from(s, i) == ws_runs(s.skip(i)),
    decreases s.len() - i,
{
    let t = s.skip(i);
    if i == s.len() {
        assert(t.len() == 0);
    } else {
        assert(t[0] == s[i]);
        if is_ws(s[i]) {
            assert(t.drop_first() =~= s.skip(i + 1));
            lemma_tokens_are_runs(s, i + 1);
        } else {
            assert(s[i] != '"');
            lemma_word_end_is_run(s, i);
            lemma_run_len(t);
            let k = run_len(t) as int;
            assert(t.take(k) =~= s.subrange(i, i + k));
            assert(t.skip(k) =~= s.skip(i + k));
            lemma_tokens_are_runs(s, i + k);
        }
    }
}

/// A command line without double quotes splits into the maximal runs of
/// characters other than white space, in order.
pub proof fn law_tokens_without_quotes(s: Seq<char>)
    requires
        !s.contains('"'),
    ensures
        tokens_from(s, 0) == ws_runs(s),
{
    lemma_tokens_are_runs(s, 0);
    assert(s.skip(0) =~= s);
}

proof fn lemma_quote_end_at(s: Seq<char>, k: int, j: int)
    requires
        0 <= k <= j < s.len(),
        s[j] == '"',
        forall|m: int| k <= m < j ==> s[m] != '"',
    ensures
        quote_end(s, k) == j,
    decreases j - k,
{
    if k < j {
        lemma_quote_end_at(s, k + 1, j);
    }
}

proof fn lemma_word_end_at(s: Seq<char>, k: int, j: int)
    requires
        0 <= k <= j <= s.len(),
        j < s.len() ==> is_ws(s[j]),
        forall|m: int| k <= m < j ==> !is_ws(s[m]),
    ensures
        word_end(s, k) == j,
    decreases j - k,
{
    if k < j {
        lemma_word_end_at(s, k + 1, j);
    }
}

/// A double-quoted word is the text between the quotes, white space and
/// separators included, without the quotes; the words after the closing
/// quote follow.
pub proof fn law_quoted_word(s: Seq<char>, i: int, j: int)
    requires
        0 <= i < j < s.len(),
        s[i] == '"',
        s[j] == '"',
        forall|m: int| i < m < j ==> s[m] != '"',
    ensures
        tokens_from(s, i) == seq![s.subrange(i + 1, j)] + tokens_from(s, j + 1),
{
    lemma_quote_end_at(s, i + 1, j);
}

/// A bare word runs to the next white space (or the end), quotes inside it
/// included; the words after it follow.
pub proof fn law_bare_word(s: Seq<char>, i: int, j: int)
    requires
        0 <= i < j <= s.len(),
        s[i] != '"',
        j < s.len() ==> is_ws(s[j]),
        forall|m: int| i <= m < j ==> !is_ws(s[m]),
    ensures
        tokens_from(s, i) == seq![s.subrange(i, j)] + tokens_from(s, j),
{
    lemma_word_end_at(s, i, j);
}

/// White space between words is skipped.
pub proof fn law_white_space_skipped(s: Seq<char>, i: int)
    requires
        0 <= i < s.len(),
        is_ws(s[i]),
    ensures
        tokens_from(s, i) == tokens_from(s, i + 1),
{
}

/// Text inside double quotes is never split into commands: a quoted text
/// holding newlines or semicolons but no quote is one command.
pub proof fn law_quotes_hold_separators(q: Seq<char>)
    requires
        !q.contains('"'),
    ensures
        commands_of(seq!['"'] + q + seq!['"']) == seq![seq!['"'] + q + seq!['"']],
{
    let s = seq!['"'] + q + seq!['"'];
    assert(s[0] == '"');
    assert forall|k: int| 1 <= k <= q.len() + 1 implies split_from(s, k, s.subrange(0, k), true) == seq![s] by {
        lemma_quoted_run(s, q, k);
    }
    assert(s.subrange(0, 1) =~= Seq::<char>::empty().push('"'));
}

proof fn lemma_quoted_run(s: Seq<char>, q: Seq<char>, k: int)
    requires
        s == seq!['"'] + q + seq!['"'],
        !q.contains('"'),
        1 <= k <= q.len() + 1,
    ensures
        split_from(s, k, s.subrange(0, k), true) == seq![s],
    decreases q.len() + 1 - k,
{
    if k <= q.len() {
        assert(s[k] == q[k - 1]);
        assert(s[k] != '"') by {
            if s[k] == '"' {
                assert(q.contains('"'));
            }
        }
        assert(s.subrange(0, k).push(s[k]) =~= s.subrange(0, k + 1));
        lemma_quoted_run(s, q, k + 1);
    } else {
        assert(s[k] == '"');
        assert(s.subrange(0, k).push('"') =~= s);
        assert(split_from(s, k + 1, s, false) == seq![s]);
    }
}

/// The characters of each string.
pub open spec fn strings_view(v: Seq<String>) -> Seq<Seq<char>> {
    v.map_values(|t: String| t@)
}

/// Split a command line into words, honouring double-quoted words.
/// `say "hello world"` gives `["say", "hello world"]`.
pub fn tokenize(text: &str) -> (r: Vec<String>)
    ensures
        strings_view(r@) == tokens_from(text@, 0),
{
    let s = str_chars(text);
    tokenize_chars(s.as_slice())
}

/// The words of a command line given as characters.
pub fn tokenize_chars(s: &[char]) -> (r: Vec<String>)
    ensures
        strings_view(r@) == tokens_from(s@, 0),
{
    let n = s.len();
    let mut tokens: Vec<String> = Vec::new();
    let mut i: usize = 0;
    while i < n
        invariant
            n == s@.len(),
            0 <= i <= n,
            strings_view(tokens@) + tokens_from(s@, i as int) == tokens_from(s@, 0),
        decreases n - i,
    {
        let ghost before = strings_view(tokens@);
        if is_whitespace(s[i]) {
            i = i + 1;
        } else if s[i] == '"' {
            let mut j = i + 1;
            let mut tok: Vec<char> = Vec::new();
            while j < n && s[j] != '"'
                invariant
                    n == s@.len(),
                    i < n,
                    i + 1 <= j <= n,
                    quote_end(s@, i + 1) == quote_end(s@, j as int),
                    tok@ == s@.subrange(i + 1, j as int),
                decreases n - j,
            {
                tok.push(s[j]);
                j = j + 1;
                assert(tok@ =~= s@.subrange(i + 1, j as int));
            }
            let t = string_from_chars(tok.as_slice());
            tokens.push(t);
            let next = if j < n { j + 1 } else { j };
            assert(strings_view(tokens@) =~= before.push(t@));
            assert(tokens_from(s@, i as int) == seq![t@] + tokens_from(s@, next as int));
            assert(before + tokens_from(s@, i as int) =~= before.push(t@) + tokens_from(s@, next as int));
            i = next;
        } else {
            let mut j = i;
            let mut tok: Vec<char> = Vec::new();
            while j < n && !is_whitespace(s[j])
                invariant
                    n == s@.len(),
                    i < n,
                    i <= j <= n,
                    word_end(s@, i as int) == word_end(s@, j as int),
                    tok@ == s@.subrange(i as int, j as int),
                decreases n - j,
            {
                tok.push(s[j]);
                j = j + 1;
                assert(tok@ =~= s@.subrange(i as int, j as int));
            }
            let t = string_from_chars(tok.as_slice());
            tokens.push(t);
            assert(strings_view(tokens@) =~= before.push(t@));
            assert(tokens_from(s@, i as int) == seq![t@] + tokens_from(s@, j as int));
            assert(before + tokens_from(s@, i as int) =~= before.push(t@) + tokens_from(s@, j as int));
            i = j;
        }
    }
    tokens
}

// ---------------------------------------------------------------------------
// Splitting the buffer into commands
// ---------------------------------------------------------------------------

/// The commands of `s` from index `i` on, with `cur` the text of the
/// command in progress and `in_quotes` whether a double quote is open:
/// a newline or semicolon outside quotes ends a command; quotes are kept;
/// trailing text forms a last command when it is not empty.
pub open spec fn split_from(s: Seq<char>, i: int, cur: Seq<char>, in_quotes: bool) -> Seq<
    Seq<char>,
>
    decreases s.len() - i,
{
    if i < 0 || i >= s.len() {
        if cur.len() > 0 {
            seq![cur]
        } else {
            Seq::empty()
        }
    } else if s[i] == '"' {
        split_from(s, i + 1, cur.push('"'), !in_quotes)
    } else if (s[i] == '\n' || s[i] == ';') && !in_quotes {
        seq![cur] + split_from(s, i + 1, Seq::empty(), in_quotes)
    } else {
        split_from(s, i + 1, cur.push(s[i]), in_quotes)
    }
}

/// The commands of `s`.
pub open spec fn commands_of(s: Seq<char>) -> Seq<Seq<char>> {
    split_from(s, 0, Seq::empty(), false)
}

/// Text with no newline and no semicolon is carried whole into the command
/// in progress, quotes included.
proof fn lemma_split_plain(s: Seq<char>, i: int, cur: Seq<char>, in_quotes: bool)
    requires
        0 <= i <= s.len(),
        forall|j: int| i <= j < s.len() ==> s[j] != '\n' && s[j] != ';',
    ensures
        split_from(s, i, cur, in_quotes) == if (cur + s.subrange(i, s.len() as int)).len() > 0 {
            seq![cur + s.subrange(i, s.len() as int)]
        } else {
            Seq::<Seq<char>>::empty()
        },
    decreases s.len() - i,
{
    if i < s.len() {
        let q = if s[i] == '"' { !in_quotes } else { in_quotes };
        lemma_split_plain(s, i + 1, cur.push(s[i]), q);
        assert(cur.push(s[i]) + s.subrange(i + 1, s.len() as int) =~= cur + s.subrange(i, s.len() as int));
    } else {
        assert(cur + s.subrange(i, s.len() as int) =~= cur);
    }
}

/// Splitting keeps every character that is not a separator: a non-empty
/// text with no newline and no semicolon is one command, itself, quotes
/// and all.
pub proof fn law_single_command(s: Seq<char>)
    requires
        s.len() > 0,
        forall|j: int| 0 <= j < s.len() ==> s[j] != '\n' && s[j] != ';',
    ensures
        commands_of(s) == seq![s],
{
    lemma_split_plain(s, 0, Seq::empty(), false);
    assert(Seq::<char>::empty() + s.subrange(0, s.len() as int) =~= s);
}

/// A newline or semicolon outside quotes ends a command: text made of a
/// command without separators or quotes, a separator and more text splits
/// into that command followed by the commands of the rest.
pub proof fn law_separator_ends_command(a: Seq<char>, sep: char, b: Seq<char>)
    requires
        a.len() > 0,
        sep == '\n' || sep == ';',
        forall|j: int| 0 <= j < a.len() ==> a[j] != '\n' && a[j] != ';' && a[j] != '"',
    ensures
        commands_of(a.push(sep) + b) == seq![a] + commands_of(b),
{
    let s = a.push(sep) + b;
    assert(s.subrange(0, a.len() as int) =~= a);
    assert(s[a.len() as int] == sep);
    assert forall|k: int| 0 <= k <= a.len() implies split_from(s, k, a.subrange(0, k), false) == seq![a] + split_from(
        s,
        (a.len() + 1) as int,
        Seq::empty(),
        false,
    ) by {
        lemma_prefix_run(s, a, sep, k);
    }
    assert(a.subrange(0, 0) =~= Seq::<char>::empty());
    lemma_split_shift(b, sep, a);
}

proof fn lemma_prefix_run(s: Seq<char>, a: Seq<char>, sep: char, k: int)
    requires
        0 <= k <= a.len(),
        s.len() > a.len(),
        s.subrange(0, a.len() as int) == a,
        s[a.len() as int] == sep,
        sep == '\n' || sep == ';',
        forall|j: int| 0 <= j < a.len() ==> a[j] != '\n' && a[j] != ';' && a[j] != '"',
    ensures
        split_from(s, k, a.subrange(0, k), false) == seq![a] + split_from(s, (a.len() + 1) as int, Seq::empty(), false),
    decreases a.len() - k,
{
    if k < a.len() {
        assert(s[k] == a[k]);
        assert(a.subrange(0, k).push(s[k]) =~= a.subrange(0, k + 1));
        lemma_prefix_run(s, a, sep, k + 1);
    } else {
        assert(a.subrange(0, k) =~= a);
    }
}

/// Splitting what follows a first command does not depend on what came
/// before it.
proof fn lemma_split_shift(b: Seq<char>, sep: char, a: Seq<char>)
    ensures
        split_from(a.push(sep) + b, (a.len() + 1) as int, Seq::empty(), false) == commands_of(b),
{
    lemma_split_offset(a.push(sep), b, 0, Seq::empty(), false);
}

proof fn lemma_split_offset(p: Seq<char>, b: Seq<char>, i: int, cur: Seq<char>, q: bool)
    requires
        0 <= i <= b.len(),
    ensures
        split_from(p + b, (p.len() + i) as int, cur, q) == split_from(b, i, cur, q),
    decreases b.len() - i,
{
    if i < b.len() {
        assert((p + b)[p.len() + i] == b[i]);
        let c = b[i];
        if c == '"' {
            lemma_split_offset(p, b, i + 1, cur.push('"'), !q);
        } else if (c == '\n' || c == ';') && !q {
            lemma_split_offset(p, b, i + 1, Seq::empty(), q);
        } else {
            lemma_split_offset(p, b, i + 1, cur.push(c), q);
        }
    }
}

/// Split command text into commands at newlines and at semicolons that
/// are not inside double quotes.
pub fn split_commands(text: &[char]) -> (r: Vec<Vec<char>>)
    ensures
        r@.map_values(|c: Vec<char>| c@) == commands_of(text@),
{
    let mut commands: Vec<Vec<char>> = Vec::new();
    let mut current: Vec<char> = Vec::new();
    let mut in_quotes = false;
    let mut i: usize = 0;
    while i < text.len()
        invariant
            0 <= i <= text@.len(),
            commands@.map_values(|c: Vec<char>| c@) + split_from(
                text@,
                i as int,
                current@,
                in_quotes,
            ) == commands_of(text@),
        decreases text@.len() - i,
    {
        let ghost before = commands@.map_values(|c: Vec<char>| c@);
        let c = text[i];
        if c == '"' {
            in_quotes = !in_quotes;
            current.push(c);
        } else if (c == '\n' || c == ';') && !in_quotes {
            let mut done: Vec<char> = Vec::new();
            std::mem::swap(&mut done, &mut current);
            commands.push(done);
            assert(commands@.map_values(|c: Vec<char>| c@) =~= before.push(done@));
            assert(before + split_from(text@, i as int, done@, in_quotes) =~= before.push(done@)
                + split_from(text@, i + 1, Seq::empty(), in_quotes));
        } else {
            current.push(c);
        }
        i = i + 1;
    }
    if current.len() > 0 {
        let ghost before = commands@.map_values(|c: Vec<char>| c@);
        let ghost cur = current@;
        commands.push(current);
        assert(commands@.map_values(|c: Vec<char>| c@) =~= before.push(cur));
    } else {
        assert(commands@.map_values(|c: Vec<char>| c@) + split_from(
            text@,
            i as int,
            current@,
            in_quotes,
        ) =~= commands@.map_values(|c: Vec<char>| c@));
    }
    commands
}

// ---------------------------------------------------------------------------
// Trimming
// ---------------------------------------------------------------------------

/// First index at or after `j` that is not white space, or the end.
pub open spec fn skip_ws(s: Seq<char>, j: int) -> int
    decreases s.len() - j,
{
    if j < 0 || j >= s.len() {
        s.len() as int
    } else if is_ws(s[j]) {
        skip_ws(s, j + 1)
    } else {
        j
    }
}

/// Going down from `k` to no lower than `lo`, the index just past the last
/// character that is not white space.
pub open spec fn back_ws(s: Seq<char>, lo: int, k: int) -> int
    decreases k - lo,
{
    if k <= lo {
        lo
    } else if is_ws(s[k - 1]) {
        back_ws(s, lo, k - 1)
    } else {
        k
    }
}

/// `s` without leading and trailing white space (what `str::trim` keeps).
pub open spec fn trimmed(s: Seq<char>) -> Seq<char> {
    let lo = skip_ws(s, 0);
    s.subrange(lo, back_ws(s, lo, s.len() as int))
}

/// Remove leading and trailing white space.
pub fn trim_chars(s: &[char]) -> (r: Vec<char>)
    ensures
        r@ == trimmed(s@),
{
    let n = s.len();
    let mut lo: usize = 0;
    while lo < n && is_whitespace(s[lo])
        invariant
            n == s@.len(),
            0 <= lo <= n,
            skip_ws(s@, 0) == skip_ws(s@, lo as int),
        decreases n - lo,
    {
        lo = lo + 1;
    }
    let mut hi: usize = n;
    while hi > lo && is_whitespace(s[hi - 1])
        invariant
            n == s@.len(),
            lo <= hi <= n,
            lo == skip_ws(s@, 0),
            back_ws(s@, lo as int, n as int) == back_ws(s@, lo as int, hi as int),
        decreases hi - lo,
    {
        hi = hi - 1;
    }
    let mut r: Vec<char> = Vec::new();
    let mut k = lo;
    while k < hi
        invariant
            n == s@.len(),
            lo <= k <= hi <= n,
            r@ == s@.subrange(lo as int, k as int),
        decreases hi - k,
    {
        r.push(s[k]);
        k = k + 1;
        assert(r@ =~= s@.subrange(lo as int, k as int));
    }
    r
}

// ---------------------------------------------------------------------------
// Command registry and buffer
// ---------------------------------------------------------------------------

/// The words of an argument list.
pub open spec fn words_view(args: Seq<&str>) -> Seq<Seq<char>> {
    args.map_values(|a: &str| a@)
}

/// Something that handles a console command, given its arguments.
pub trait CmdCallback {
    /// Whether this handler may be run with the words `args`.
    spec fn accepts(&self, args: Seq<Seq<char>>) -> bool;

    /// Whether this handler has been run with the words `args`.
    spec fn has_run(&self, args: Seq<Seq<char>>) -> bool;

    /// Run the handler with `args`.
    fn call(&self, args: &[&str])
        requires
            self.accepts(words_view(args@)),
        ensures
            self.has_run(words_view(args@)),
    ;
}

/// Run a handler closure supplied by the engine's user, on arguments that
/// meet its precondition; the closure's own postcondition holds of the call
/// afterwards.
fn call_closure<F: Fn(&[&str])>(f: &F, args: &[&str]) -> (r: ())
    requires
        call_requires(*f, (args,)),
    ensures
        call_ensures(*f, (args,), r),
{
    f(args)
}

impl<F: Fn(&[&str])> CmdCallback for F {
    open spec fn accepts(&self, args: Seq<Seq<char>>) -> bool {
        forall|a: &[&str]| #[trigger] words_view(a@) == args ==> call_requires(*self, (a,))
    }

    open spec fn has_run(&self, args: Seq<Seq<char>>) -> bool {
        exists|a: &[&str]| #[trigger] words_view(a@) == args && call_ensures(*self, (a,), ())
    }

    fn call(&self, args: &[&str]) {
        let r = call_closure(self, args);
        assert(call_ensures(*self, (args,), r));
    }
}

proof fn lemma_update_len<A>(s: Seq<A>, k: int, x: A)
    requires
        0 <= k < s.len(),
    ensures
        s.update(k, x).len() == s.len(),
{
}

proof fn lemma_push_len<A>(s: Seq<A>, x: A)
    ensures
        s.push(x).len() == s.len() + 1,
{
}

proof fn lemma_update_index<A>(s: Seq<A>, k: int, x: A)
    requires
        0 <= k < s.len(),
    ensures
        s.update(k, x).len() == s.len(),
        s.update(k, x)[k] == x,
        forall|j: int| 0 <= j < s.len() && j != k ==> #[trigger] s.update(k, x)[j] == s[j],
{
}

proof fn lemma_push_index<A>(s: Seq<A>, x: A)
    ensures
        s.push(x).len() == s.len() + 1,
        s.push(x)[s.len() as int] == x,
        forall|j: int| 0 <= j < s.len() ==> #[trigger] s.push(x)[j] == s[j],
{
}

/// A registered command handler.
pub struct CmdHandler {
    callback: Box<dyn CmdCallback>,
}

/// One run of a command: the name it was found under and its argument words.
pub type Dispatch = (Seq<char>, Seq<Seq<char>>);

/// The abstract state of the command system: the registered command
/// names with the handler of each, the pending command text, the deferred
/// command text, and the
/// commands run so far, in the order they ran.
pub struct CmdView {
    pub names: Set<Seq<char>>,
    pub handlers: Map<Seq<char>, Box<dyn CmdCallback>>,
    pub buffer: Seq<char>,
    pub defer: Seq<char>,
    pub log: Seq<Dispatch>,
}

/// Registration, buffering, tokenizing and dispatch of console commands.
pub struct CmdSystem {
    names: Vec<Vec<char>>,
    handlers: Vec<CmdHandler>,
    buffer: Vec<char>,
    defer_buffer: Vec<char>,
    log: Ghost<Seq<Dispatch>>,
}

/// The characters of each name.
pub open spec fn names_view(v: Seq<Vec<char>>) -> Seq<Seq<char>> {
    v.map_values(|c: Vec<char>| c@)
}

impl View for CmdSystem {
    type V = CmdView;

    closed spec fn view(&self) -> CmdView {
        CmdView {
            names: names_view(self.names@).to_set(),
            handlers: Map::new(
                |n: Seq<char>| names_view(self.names@).contains(n),
                |n: Seq<char>| self.handlers@[names_view(self.names@).index_of(n)].callback,
            ),
            buffer: self.buffer@,
            defer: self.defer_buffer@,
            log: self.log@,
        }
    }
}

impl CmdSystem {
    /// One handler per name, no name registered twice, and every handler
    /// may be run with any arguments.
    pub closed spec fn wf(&self) -> bool {
        &&& self.names@.len() == self.handlers@.len()
        &&& names_view(self.names@).no_duplicates()
        &&& forall|k: int, args: Seq<Seq<char>>|
            0 <= k < self.handlers@.len() ==> #[trigger] self.handlers@[k].callback.accepts(args)
    }

    /// Create a command system with no commands and empty buffers.
    pub fn new() -> (r: Self)
        ensures
            r.wf(),
            r@.names == Set::<Seq<char>>::empty(),
            r@.buffer == Seq::<char>::empty(),
            r@.defer == Seq::<char>::empty(),
            r@.log == Seq::<Dispatch>::empty(),
            r@.handlers.dom() == r@.names,
    {
        let r = CmdSystem {
            names: Vec::new(),
            handlers: Vec::new(),
            buffer: Vec::new(),
            defer_buffer: Vec::new(),
            log: Ghost(Seq::empty()),
        };
        assert(names_view(r.names@).to_set() =~= Set::<Seq<char>>::empty());
        assert(r@.handlers.dom() =~= r@.names);
        r
    }

    /// Index of the registered name equal to `name`, if any.
    fn find(&self, name: &[char]) -> (r: Option<usize>)
        requires
            self.wf(),
        ensures
            r is None ==> !self@.names.contains(name@),
            r matches Some(k) ==> k < self.names@.len() && self.names@[k as int]@ == name@,
    {
        let mut k: usize = 0;
        while k < self.names.len()
            invariant
                0 <= k <= self.names@.len(),
                forall|j: int| 0 <= j < k ==> self.names@[j]@ != name@,
            decreases self.names@.len() - k,
        {
            if chars_equal(self.names[k].as_slice(), name) {
                return Some(k);
            }
            k = k + 1;
        }
        proof {
            if self@.names.contains(name@) {
                let j = names_view(self.names@).index_of(name@);
                assert(self.names@[j]@ == name@);
            }
        }
        None
    }

    /// Register a command; a name registered again gets the new handler.
    /// The handler must accept any argument list.
    pub fn add_command(&mut self, name: &str, handler: impl Fn(&[&str]) + 'static)
        requires
            old(self).wf(),
            forall|a: &[&str]| call_requires(handler, (a,)),
        ensures
            final(self).wf(),
            final(self)@.names == old(self)@.names.insert(name@),
            final(self)@.handlers.dom() == final(self)@.names,
            forall|m: Seq<char>|
                m != name@ && old(self)@.names.contains(m) ==> #[trigger] final(self)@.handlers[m]
                    == old(self)@.handlers[m],
            forall|args: Seq<Seq<char>>|
                #[trigger] final(self)@.handlers[name@].has_run(args) == handler.has_run(args),
            forall|args: Seq<Seq<char>>|
                #[trigger] final(self)@.handlers[name@].accepts(args) == handler.accepts(args),
            final(self)@.buffer == old(self)@.buffer,
            final(self)@.defer == old(self)@.defer,
            final(self)@.log == old(self)@.log,
    {
        let key = str_chars(name);
        let h = CmdHandler { callback: Box::new(handler) };
        let ghost old_names = names_view(self.names@);
        let ghost oh = self.handlers@;
        match self.find(key.as_slice()) {
            Some(k) => {
                self.handlers.set(k, h);
                assert(self.handlers@ == oh.update(k as int, h));
                assert(old_names.len() == oh.len());
                proof {
                    lemma_update_len(oh, k as int, h);
                    lemma_update_index(oh, k as int, h);
                }
                assert(k < self.names@.len());
                assert(self.names@.len() == old_names.len());
                assert(k < oh.len());
                assert(self.handlers@[k as int] == h);
                assert forall|kk: int| 0 <= kk < self.handlers@.len() && !(kk < oh.len() && self.handlers@[kk] == oh[kk])
                    implies #[trigger] self.handlers@[kk] == h by {
                    assert(kk == k);
                }
                proof {
                    lemma_update_len(oh, k as int, h);
                    assert(names_view(self.names@) == old_names);
                    assert(old_names[k as int] == name@);
                    lemma_index_of_unique(old_names, k as int);
                    assert(old_names.to_set().contains(name@));
                    assert(old(self)@.names.insert(name@) =~= old(self)@.names);
                    assert forall|m: Seq<char>|
                        m != name@ && old(self)@.names.contains(m) implies #[trigger] self@.handlers[m]
                            == old(self)@.handlers[m] by {
                        assert(old_names.contains(m));
                        let j = old_names.index_of(m);
                        assert(old_names[j] == m);
                        assert(j != k);
                        assert(names_view(self.names@).contains(m));
                        assert(names_view(self.names@).index_of(m) == j);
                        assert(self.handlers@[j] == oh[j]);
                    }
                    assert(self@.handlers.dom() =~= self@.names);
                }
            },
            None => {
                self.names.push(key);
                self.handlers.push(h);
                assert(self.handlers@ == oh.push(h));
                proof {
                    lemma_push_index(oh, h);
                }
                assert forall|kk: int| 0 <= kk < self.handlers@.len() && !(kk < oh.len() && self.handlers@[kk] == oh[kk])
                    implies #[trigger] self.handlers@[kk] == h by {
                    assert(kk == oh.len());
                }
                proof {
                    assert(names_view(self.names@) =~= old_names.push(name@));
                    assert(!old_names.contains(name@));
                    assert(old_names.push(name@).no_duplicates()) by {
                        assert forall|a: int, b: int|
                            0 <= a < old_names.len() + 1 && 0 <= b < old_names.len() + 1 && a
                                != b implies old_names.push(name@)[a] != old_names.push(
                            name@,
                        )[b] by {
                            if a == old_names.len() {
                                assert(old_names.push(name@)[b] == old_names[b]);
                            } else if b == old_names.len() {
                                assert(old_names.push(name@)[a] == old_names[a]);
                            }
                        }
                    }
                    old_names.lemma_push_to_set_commute(name@);
                    lemma_push_len(oh, h);
                    let nn = old_names.push(name@);
                    assert(nn[old_names.len() as int] == name@);
                    lemma_index_of_unique(nn, old_names.len() as int);
                    assert forall|m: Seq<char>|
                        m != name@ && old(self)@.names.contains(m) implies #[trigger] self@.handlers[m]
                            == old(self)@.handlers[m] by {
                        assert(old_names.contains(m));
                        let j = old_names.index_of(m);
                        assert(old_names[j] == m);
                        assert(nn[j] == m);
                        lemma_index_of_unique(nn, j);
                        lemma_index_of_unique(old_names, j);
                        assert(nn.contains(m));
                        assert(names_view(self.names@).index_of(m) == j);
                        assert(self.handlers@[j] == oh[j]);
                    }
                    assert(self@.handlers.dom() =~= self@.names);
                }
            },
        }
        proof {
            assert forall|kk: int, args: Seq<Seq<char>>|
                0 <= kk < self.handlers@.len() implies #[trigger] self.handlers@[kk].callback.accepts(args) by {
                if kk < oh.len() && self.handlers@[kk] == oh[kk] {
                    assert(oh[kk].callback.accepts(args));
                } else {
                    assert(self.handlers@[kk].callback.accepts(args) == handler.accepts(args));
                    assert forall|a: &[&str]| #[trigger] words_view(a@) == args implies call_requires(
                        handler,
                        (a,),
                    ) by {}
                    assert(handler.accepts(args));
                }
            }
        }
    }
}

/// In a sequence without duplicates, the index of the element at `k` is `k`.
proof fn lemma_index_of_unique<A>(s: Seq<A>, k: int)
    requires
        s.no_duplicates(),
        0 <= k < s.len(),
    ensures
        s.contains(s[k]),
        s.index_of(s[k]) == k,
{
    assert(s[k] == s[k]);
    let j = s.index_of(s[k]);
    assert(s[j] == s[k]);
}

/// The run that the command line `line` makes: when its first word is a
/// registered name, that name with the remaining words; otherwise none.
pub open spec fn dispatch_of(names: Set<Seq<char>>, line: Seq<char>) -> Seq<Dispatch> {
    let words = tokens_from(line, 0);
    if words.len() > 0 && names.contains(words[0]) {
        seq![(words[0], words.drop_first())]
    } else {
        Seq::empty()
    }
}

/// The runs that a sequence of command lines makes, in order, each line
/// trimmed first.
pub open spec fn dispatch_log(names: Set<Seq<char>>, cmds: Seq<Seq<char>>) -> Seq<Dispatch>
    decreases cmds.len(),
{
    if cmds.len() == 0 {
        Seq::empty()
    } else {
        dispatch_log(names, cmds.drop_last()) + dispatch_of(names, trimmed(cmds.last()))
    }
}

/// Each of the runs `d` has run the handler of its name with its words.
pub open spec fn handlers_ran(v: CmdView, d: Seq<Dispatch>) -> bool {
    forall|i: int| 0 <= i < d.len() ==> #[trigger] v.handlers[d[i].0].has_run(d[i].1)
}

/// The buffer after adding `text` at its end.
pub open spec fn added(v: CmdView, text: Seq<char>) -> CmdView {
    CmdView { buffer: v.buffer + text, ..v }
}

/// The buffer after inserting `text` at its front.
pub open spec fn inserted(v: CmdView, text: Seq<char>) -> CmdView {
    CmdView { buffer: text + v.buffer, ..v }
}

/// The pending text moved to the defer buffer.
pub open spec fn deferred(v: CmdView) -> CmdView {
    CmdView { buffer: Seq::empty(), defer: v.buffer, ..v }
}

/// The deferred text moved back in front of the pending text.
pub open spec fn restored(v: CmdView) -> CmdView {
    CmdView { buffer: v.defer + v.buffer, defer: Seq::empty(), ..v }
}

impl CmdSystem {
    /// Unregister a command; nothing happens for an unknown name.
    pub fn remove_command(&mut self, name: &str)
        requires
            old(self).wf(),
        ensures
            final(self).wf(),
            final(self)@.names == old(self)@.names.remove(name@),
            final(self)@.handlers == old(self)@.handlers.remove(name@),
            final(self)@.buffer == old(self)@.buffer,
            final(self)@.defer == old(self)@.defer,
            final(self)@.log == old(self)@.log,
    {
        let key = str_chars(name);
        match self.find(key.as_slice()) {
            Some(k) => {
                let ghost on = names_view(self.names@);
                let ghost oh = self.handlers@;
                self.names.remove(k);
                self.handlers.remove(k);
                proof {
                    oh.remove_ensures(k as int);
                    assert(names_view(self.names@) =~= on.remove(k as int));
                    on.remove_ensures(k as int);
                    assert(names_view(self.names@).no_duplicates());
                    assert(names_view(self.names@).to_set() =~= on.to_set().remove(name@)) by {
                        assert forall|x: Seq<char>| #[trigger]
                            names_view(self.names@).to_set().contains(x) implies on.to_set().remove(
                            name@,
                        ).contains(x) by {
                            let j = names_view(self.names@).index_of(x);
                            assert(on[k as int] == name@);
                            if j < k {
                                assert(on[j] == x);
                                assert(x != name@);
                            } else {
                                assert(on[j + 1] == x);
                                assert(x != name@);
                            }
                        }
                        assert forall|x: Seq<char>| #[trigger]
                            on.to_set().remove(name@).contains(x) implies names_view(
                            self.names@,
                        ).to_set().contains(x) by {
                            let j = on.index_of(x);
                            if j < k {
                                assert(names_view(self.names@)[j] == x);
                            } else {
                                assert(j != k);
                                assert(names_view(self.names@)[j - 1] == x);
                            }
                        }
                    }
                    let nv = names_view(self.names@);
                    assert forall|x: Seq<char>| #[trigger] nv.contains(x) implies self@.handlers[x]
                        == old(self)@.handlers[x] by {
                        let j = nv.index_of(x);
                        lemma_index_of_unique(nv, j);
                        if j < k {
                            assert(on[j] == x);
                            lemma_index_of_unique(on, j);
                            assert(self.handlers@[j] == oh[j]);
                        } else {
                            assert(on[j + 1] == x);
                            lemma_index_of_unique(on, j + 1);
                            assert(self.handlers@[j] == oh[j + 1]);
                        }
                    }
                    assert(self@.handlers =~= old(self)@.handlers.remove(name@));
                }
            },
            None => {
                assert(old(self)@.names.remove(name@) =~= old(self)@.names);
                assert(old(self)@.handlers.remove(name@) =~= old(self)@.handlers);
            },
        }
    }

    /// Whether a command is registered under `name`.
    pub fn has_command(&self, name: &str) -> (r: bool)
        requires
            self.wf(),
        ensures
            r == self@.names.contains(name@),
    {
        let key = str_chars(name);
        match self.find(key.as_slice()) {
            Some(k) => {
                assert(names_view(self.names@)[k as int] == name@);
                true
            },
            None => false,
        }
    }

    /// Complete a partial command name: the first, in alphabetical order,
    /// of the registered names that begin with `partial`.
    pub fn complete(&self, partial: &str) -> (r: Option<String>)
        requires
            self.wf(),
        ensures
            r is None <==> !exists|n: Seq<char>| #[trigger]
                self@.names.contains(n) && partial@.is_prefix_of(n),
            r matches Some(x) ==> {
                &&& self@.names.contains(x@)
                &&& partial@.is_prefix_of(x@)
                &&& forall|n: Seq<char>| #[trigger]
                    self@.names.contains(n) && partial@.is_prefix_of(n) && n != x@ ==> lex_lt(
                        x@,
                        n,
                    )
            },
    {
        let p = str_chars(partial);
        let mut best: Option<usize> = None;
        let mut k: usize = 0;
        while k < self.names.len()
            invariant
                0 <= k <= self.names@.len(),
                p@ == partial@,
                best is None ==> forall|j: int|
                    0 <= j < k ==> !p@.is_prefix_of(#[trigger] self.names@[j]@),
                best matches Some(b) ==> {
                    &&& b < k
                    &&& p@.is_prefix_of(self.names@[b as int]@)
                    &&& forall|j: int|
                        0 <= j < k && p@.is_prefix_of(#[trigger] self.names@[j]@) && j != b
                            ==> lex_lt(self.names@[b as int]@, self.names@[j]@)
                },
                self.wf(),
            decreases self.names@.len() - k,
        {
            if starts_with_chars(self.names[k].as_slice(), p.as_slice()) {
                match best {
                    None => {
                        best = Some(k);
                    },
                    Some(b) => {
                        if lex_less(self.names[k].as_slice(), self.names[b].as_slice()) {
                            proof {
                                let nk = self.names@[k as int]@;
                                let nb = self.names@[b as int]@;
                                assert forall|j: int|
                                    0 <= j < k + 1 && p@.is_prefix_of(#[trigger] self.names@[j]@)
                                        && j != k implies lex_lt(nk, self.names@[j]@) by {
                                    if j != b {
                                        lemma_lex_lt_transitive(nk, nb, self.names@[j]@);
                                    }
                                }
                            }
                            best = Some(k);
                        } else {
                            proof {
                                let nk = self.names@[k as int]@;
                                let nb = self.names@[b as int]@;
                                assert(names_view(self.names@)[k as int] != names_view(
                                    self.names@,
                                )[b as int]);
                                lemma_lex_lt_total(nk, nb);
                            }
                        }
                    },
                }
            }
            k = k + 1;
        }
        match best {
            None => {
                proof {
                    if exists|n: Seq<char>| #[trigger]
                        self@.names.contains(n) && partial@.is_prefix_of(n) {
                        let n = choose|n: Seq<char>| #[trigger]
                            self@.names.contains(n) && partial@.is_prefix_of(n);
                        assert(names_view(self.names@).contains(n));
                        let j = names_view(self.names@).index_of(n);
                        assert(0 <= j < self.names@.len());
                        assert(self.names@[j]@ == n);
                        assert(!p@.is_prefix_of(self.names@[j]@));
                    }
                }
                None
            },
            Some(b) => {
                let r = string_from_chars(self.names[b].as_slice());
                proof {
                    assert(names_view(self.names@)[b as int] == r@);
                    assert(self@.names.contains(r@) && partial@.is_prefix_of(r@));
                    assert forall|n: Seq<char>| #[trigger]
                        self@.names.contains(n) && partial@.is_prefix_of(n) && n != r@ implies lex_lt(
                        r@,
                        n,
                    ) by {
                        let j = names_view(self.names@).index_of(n);
                        assert(self.names@[j]@ == n);
                    }
                }
                Some(r)
            },
        }
    }
}

/// Append every character of `d` to `v`, in order.
fn append_chars(v: &mut Vec<char>, d: &[char])
    ensures
        final(v)@ == old(v)@ + d@,
{
    let mut i: usize = 0;
    while i < d.len()
        invariant
            0 <= i <= d@.len(),
            v@ == old(v)@ + d@.take(i as int),
        decreases d@.len() - i,
    {
        v.push(d[i]);
        i = i + 1;
        assert(v@ =~= old(v)@ + d@.take(i as int));
    }
    assert(d@.take(d@.len() as int) =~= d@);
}

impl CmdSystem {
    /// Add command text at the end of the buffer (commands end at newlines
    /// or semicolons).
    pub fn cbuf_add_text(&mut self, text: &str)
        requires
            old(self).wf(),
        ensures
            final(self).wf(),
            final(self)@ == added(old(self)@, text@),
    {
        let t = str_chars(text);
        append_chars(&mut self.buffer, t.as_slice());
    }

    /// Insert command text at the front of the buffer, to run first.
    pub fn cbuf_insert_text(&mut self, text: &str)
        requires
            old(self).wf(),
        ensures
            final(self).wf(),
            final(self)@ == inserted(old(self)@, text@),
    {
        let t = str_chars(text);
        self.insert_chars(t.as_slice());
    }

    fn insert_chars(&mut self, t: &[char])
        requires
            old(self).wf(),
        ensures
            final(self).wf(),
            final(self)@ == inserted(old(self)@, t@),
    {
        let mut nb: Vec<char> = Vec::new();
        append_chars(&mut nb, t);
        append_chars(&mut nb, self.buffer.as_slice());
        self.buffer = nb;
    }

    /// Move the pending text to the defer buffer, leaving the buffer empty.
    pub fn cbuf_copy_to_defer(&mut self)
        requires
            old(self).wf(),
        ensures
            final(self).wf(),
            final(self)@ == deferred(old(self)@),
    {
        let mut taken: Vec<char> = Vec::new();
        std::mem::swap(&mut taken, &mut self.buffer);
        self.defer_buffer = taken;
    }

    /// Put the deferred text back in front of the pending text.
    pub fn cbuf_insert_from_defer(&mut self)
        requires
            old(self).wf(),
        ensures
            final(self).wf(),
            final(self)@ == restored(old(self)@),
    {
        let mut d: Vec<char> = Vec::new();
        std::mem::swap(&mut d, &mut self.defer_buffer);
        self.insert_chars(d.as_slice());
    }

    /// Run one command line given as characters: its first word names the
    /// command, the other words are the arguments. Unknown commands are
    /// ignored.
    fn execute_chars(&mut self, text: &[char])
        requires
            old(self).wf(),
        ensures
            final(self).wf(),
            final(self)@ == (CmdView {
                log: old(self)@.log + dispatch_of(old(self)@.names, text@),
                ..old(self)@
            }),
            final(self).names@ == old(self).names@,
            final(self).handlers@ == old(self).handlers@,
            handlers_ran(old(self)@, dispatch_of(old(self)@.names, text@)),
    {
        let tokens = tokenize_chars(text);
        let ghost words = tokens_from(text@, 0);
        if tokens.len() == 0 {
            proof {
                assert(self.log@ =~= self.log@ + dispatch_of(self@.names, text@));
            }
            return;
        }
        let name = str_chars(tokens[0].as_str());
        match self.find(name.as_slice()) {
            Some(k) => {
                let mut args: Vec<&str> = Vec::new();
                let mut i: usize = 1;
                while i < tokens.len()
                    invariant
                        1 <= i <= tokens@.len(),
                        args@.len() == i - 1,
                        forall|j: int| 0 <= j < i - 1 ==> args@[j]@ == tokens@[j + 1]@,
                    decreases tokens@.len() - i,
                {
                    args.push(tokens[i].as_str());
                    i = i + 1;
                }
                proof {
                    assert(words_view(args@) =~= words.drop_first());
                    assert(self.names@[k as int]@ == words[0]);
                    lemma_index_of_unique(names_view(self.names@), k as int);
                    assert(self.handlers@[k as int].callback.accepts(words.drop_first()));
                }
                self.handlers[k].callback.call(args.as_slice());
                let ghost d: Dispatch = (words[0], words.drop_first());
                proof {
                    assert(names_view(self.names@).contains(words[0]));
                    assert(self@.handlers[words[0]] == self.handlers@[k as int].callback);
                    assert(dispatch_of(self@.names, text@) =~= seq![d]);
                }
                self.log = Ghost(self.log@.push(d));
                proof {
                    assert(self.log@ =~= old(self).log@ + dispatch_of(old(self)@.names, text@));
                }
            },
            None => {
                proof {
                    assert(dispatch_of(self@.names, text@) =~= Seq::<Dispatch>::empty());
                    assert(self.log@ =~= self.log@ + dispatch_of(self@.names, text@));
                }
            },
        }
    }

    /// Parse and run one command string: its first word names the command,
    /// the other words are the arguments. Unknown commands are ignored.
    /// The run, if any, is added to the log; its handler has been run.
    pub fn execute_string(&mut self, text: &str)
        requires
            old(self).wf(),
        ensures
            final(self).wf(),
            final(self)@ == (CmdView {
                log: old(self)@.log + dispatch_of(old(self)@.names, text@),
                ..old(self)@
            }),
            handlers_ran(old(self)@, dispatch_of(old(self)@.names, text@)),
    {
        let t = str_chars(text);
        self.execute_chars(t.as_slice());
    }

    /// Run every command in the buffer, in order, and empty it. Each
    /// command is trimmed; empty ones are skipped. The runs are added to the
    /// log in the order of the commands; each handler has been run.
    pub fn cbuf_execute(&mut self)
        requires
            old(self).wf(),
        ensures
            final(self).wf(),
            final(self)@ == (CmdView {
                buffer: Seq::empty(),
                log: old(self)@.log + dispatch_log(old(self)@.names, commands_of(old(self)@.buffer)),
                ..old(self)@
            }),
            handlers_ran(old(self)@, dispatch_log(old(self)@.names, commands_of(old(self)@.buffer))),
    {
        let mut text: Vec<char> = Vec::new();
        std::mem::swap(&mut text, &mut self.buffer);
        let lines = split_commands(text.as_slice());
        let ghost cmds = commands_of(old(self)@.buffer);
        let ghost names = old(self)@.names;
        assert(lines@.len() == cmds.len());
        let mut i: usize = 0;
        while i < lines.len()
            invariant
                self.wf(),
                self@ == (CmdView {
                    buffer: Seq::empty(),
                    log: old(self)@.log + dispatch_log(names, cmds.take(i as int)),
                    ..old(self)@
                }),
                names == old(self)@.names,
                lines@.map_values(|c: Vec<char>| c@) == cmds,
                cmds == commands_of(old(self)@.buffer),
                lines@.len() == cmds.len(),
                0 <= i <= lines@.len(),
                handlers_ran(old(self)@, dispatch_log(names, cmds.take(i as int))),
            decreases lines@.len() - i,
        {
            let t = trim_chars(lines[i].as_slice());
            let ghost before = self@.log;
            let ghost prev = dispatch_log(names, cmds.take(i as int));
            proof {
                assert(lines@[i as int]@ == cmds[i as int]);
                assert(cmds.take(i + 1).drop_last() =~= cmds.take(i as int));
                assert(cmds.take(i + 1).last() == cmds[i as int]);
                assert(dispatch_log(names, cmds.take(i + 1)) == prev + dispatch_of(names, t@));
            }
            if t.len() > 0 {
                self.execute_chars(t.as_slice());
            } else {
                assert(tokens_from(t@, 0).len() == 0) by {
                    reveal_with_fuel(tokens_from, 2);
                }
                assert(dispatch_of(names, t@) =~= Seq::<Dispatch>::empty());
                assert(self@.log =~= before + dispatch_of(names, t@));
            }
            proof {
                let nxt = prev + dispatch_of(names, t@);
                assert(self@.log =~= old(self)@.log + nxt);
                assert forall|q: int| 0 <= q < nxt.len() implies #[trigger] old(self)@.handlers[nxt[q].0].has_run(nxt[q].1) by {
                    if q < prev.len() {
                        assert(nxt[q] == prev[q]);
                    } else {
                        assert(nxt[q] == dispatch_of(names, t@)[q - prev.len()]);
                    }
                }
            }
            i = i + 1;
        }
        proof {
            assert(cmds.take(lines@.len() as int) =~= cmds);
        }
    }
}

impl Default for CmdSystem {
    fn default() -> (r: Self)
        ensures
            r.wf(),
            r@.names == Set::<Seq<char>>::empty(),
            r@.buffer == Seq::<char>::empty(),
            r@.defer == Seq::<char>::empty(),
            r@.log == Seq::<Dispatch>::empty(),
            r@.handlers.dom() == r@.names,
    {
        Self::new()
    }
}

/// A command line whose first word names no registered command runs
/// nothing; an empty line runs nothing either.
pub proof fn law_unknown_command_runs_nothing(names: Set<Seq<char>>, line: Seq<char>)
    requires
        tokens_from(line, 0).len() > 0 ==> !names.contains(tokens_from(line, 0)[0]),
    ensures
        dispatch_of(names, line) == Seq::<Dispatch>::empty(),
{
    assert(dispatch_of(names, line) =~= Seq::<Dispatch>::empty());
}

/// Moving the pending text to the defer buffer and back restores it.
pub proof fn law_defer_then_restore(v: CmdView)
    ensures
        restored(deferred(v)) == (CmdView { defer: Seq::empty(), ..v }),
{
    assert(v.buffer + Seq::<char>::empty() =~= v.buffer);
}

/// Text inserted at the front comes before text added at the end.
pub proof fn law_insert_before_add(v: CmdView, first: Seq<char>, second: Seq<char>)
    ensures
        inserted(added(v, second), first).buffer == first + v.buffer + second,
{
    assert(first + (v.buffer + second) =~= first + v.buffer + second);
}

} // verus!
