//! `require()` calls: which modules a source requires statically, and where
//! it requires one dynamically.
//!
//! The parser reports each function call whose prefix is a plain name; what a
//! call means for the bundle is decided here.
use vstd::prelude::*;

use crate::text::{chars_eq_str, chars_to_string, str_chars};

verus! {

/// What a scan of one source found: the modules required by a string
/// literal, in order, and for each dynamic require the path of the source.
pub struct ScanResult {
    pub requires: Vec<String>,
    /// locations of unresolvable dynamic requires
    pub dynamic_requires: Vec<String>,
}

/// The argument list of a call, as far as `require` is concerned.
pub enum CallArgument {
    /// Exactly one parenthesized argument, a string literal, with its text as
    /// written (quotes included).
    Literal(String),
    /// Exactly one parenthesized argument, which is no string literal.
    Dynamic,
    /// No parenthesized call with exactly one argument.
    Unsupported,
}

/// Whether `c` is a quote character.
pub open spec fn is_quote(c: char) -> bool {
    c == '"' || c == '\''
}

/// `s` without its leading quote characters.
pub open spec fn strip_leading_quotes(s: Seq<char>) -> Seq<char>
    decreases s.len(),
{
    if s.len() > 0 && is_quote(s[0]) {
        strip_leading_quotes(s.drop_first())
    } else {
        s
    }
}

/// `s` without its trailing quote characters.
pub open spec fn strip_trailing_quotes(s: Seq<char>) -> Seq<char>
    decreases s.len(),
{
    if s.len() > 0 && is_quote(s.last()) {
        strip_trailing_quotes(s.drop_last())
    } else {
        s
    }
}

/// `s` without the quote characters at either end, as
/// `str::trim_matches(|c| c == '"' || c == '\'')` gives it.
pub open spec fn spec_trim_quotes(s: Seq<char>) -> Seq<char> {
    strip_trailing_quotes(strip_leading_quotes(s))
}

/// The module name a string literal token stands for: its text without the
/// quote characters at either end.
pub fn trim_quotes(raw: &str) -> (r: String)
    ensures
        r@ == spec_trim_quotes(raw@),
{
    let s = str_chars(raw);
    let mut a: usize = 0;
    assert(s@.subrange(0, s@.len() as int) == s@);
    while a < s.len() && (s[a] == '"' || s[a] == '\'')
        invariant
            a <= s@.len(),
            strip_leading_quotes(s@) == strip_leading_quotes(s@.subrange(a as int, s@.len() as int)),
        decreases s@.len() - a,
    {
        assert(s@.subrange(a as int, s@.len() as int).drop_first() == s@.subrange(a + 1 as int, s@.len() as int));
        a = a + 1;
    }
    let ghost t = s@.subrange(a as int, s@.len() as int);
    assert(strip_leading_quotes(t) == t);
    let mut b: usize = s.len();
    assert(t.subrange(0, t.len() as int) == t);
    while b > a && (s[b - 1] == '"' || s[b - 1] == '\'')
        invariant
            a <= b <= s@.len(),
            t == s@.subrange(a as int, s@.len() as int),
            strip_trailing_quotes(t) == strip_trailing_quotes(s@.subrange(a as int, b as int)),
        decreases b,
    {
        assert(s@.subrange(a as int, b as int).drop_last() == s@.subrange(a as int, b - 1 as int));
        b = b - 1;
    }
    let mut out: Vec<char> = Vec::new();
    let mut i = a;
    while i < b
        invariant
            a <= i <= b <= s@.len(),
            out@ == s@.subrange(a as int, i as int),
        decreases b - i,
    {
        out.push(s[i]);
        i = i + 1;
        assert(out@ == s@.subrange(a as int, i as int));
    }
    assert(strip_trailing_quotes(out@) == out@);
    chars_to_string(&out)
}

/// What a call with prefix `prefix` adds to a scan: for `require` with a
/// string literal, the module it names; for `require` with another single
/// argument, a dynamic require at `path`; nothing otherwise.
pub open spec fn scan_step(
    reqs: Seq<Seq<char>>,
    dynamic: Seq<Seq<char>>,
    path: Seq<char>,
    prefix: Seq<char>,
    argument: CallArgument,
) -> (Seq<Seq<char>>, Seq<Seq<char>>) {
    if prefix != "require"@ {
        (reqs, dynamic)
    } else {
        match argument {
            CallArgument::Literal(raw) => (reqs.push(spec_trim_quotes(raw@)), dynamic),
            CallArgument::Dynamic => (reqs, dynamic.push(path)),
            CallArgument::Unsupported => (reqs, dynamic),
        }
    }
}

impl ScanResult {
    pub fn new() -> (r: Self)
        ensures
            r.requires@.len() == 0,
            r.dynamic_requires@.len() == 0,
    {
        ScanResult { requires: Vec::new(), dynamic_requires: Vec::new() }
    }

    /// The required module names, in order.
    pub open spec fn required(&self) -> Seq<Seq<char>> {
        self.requires@.map_values(|s: String| s@)
    }

    /// The locations of the dynamic requires, in order.
    pub open spec fn dynamic(&self) -> Seq<Seq<char>> {
        self.dynamic_requires@.map_values(|s: String| s@)
    }

    /// Records a function call of the scanned source (at `path`) whose prefix
    /// is the name `prefix`.
    pub fn record_call(&mut self, path: &str, prefix: &str, argument: &CallArgument)
        ensures
            (final(self).required(), final(self).dynamic()) == scan_step(
                old(self).required(),
                old(self).dynamic(),
                path@,
                prefix@,
                *argument,
            ),
    {
        let p = str_chars(prefix);
        if !chars_eq_str(&p, "require") {
            return;
        }
        match argument {
            CallArgument::Literal(raw) => {
                // static string literal: resolvable
                let module = trim_quotes(raw.as_str());
                let ghost before = self.required();
                self.requires.push(module);
                assert(self.required() =~= before.push(spec_trim_quotes(raw@)));
            },
            CallArgument::Dynamic => {
                // dynamic require: unresolvable at bundle time
                let ghost before = self.dynamic();
                self.dynamic_requires.push(path.to_owned());
                assert(self.dynamic() =~= before.push(path@));
            },
            CallArgument::Unsupported => {},
        }
    }
}

} // verus!
