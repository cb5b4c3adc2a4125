//! The project configuration (`lunar_bundler.toml` or `lunar_bundler.jsonc`)
//! and the comment stripping that lets JSON carry comments.
use vstd::prelude::*;

use crate::minify::{line_end, lemma_line_end, lemma_quote_end, quote_end};
use crate::text::{
    chars_to_string, count_char, lemma_count_char_concat, lemma_count_char_single, lemma_count_char_split,
    lemma_count_none, str_chars,
};

verus! {

pub struct Config {
    pub bundle: Option<BundleConfig>,
    pub paths: Option<PathsConfig>,
    pub inject: Option<InjectConfig>,
    pub resolve: Option<ResolveConfig>,
    pub loaders: Option<LoadersConfig>,
    pub sandbox: Option<SandboxConfig>,
    pub compat: Option<CompatSettings>,
}

pub struct BundleConfig {
    pub entry: Option<String>,
    pub output: Option<String>,
    pub lua_version: Option<String>,
    pub luarocks: Option<bool>,
    pub mode: Option<String>,
}

pub struct PathsConfig {
    pub search: Option<Vec<String>>,
}

pub struct InjectConfig {
    pub top: Option<String>,
    pub bottom: Option<String>,
}

pub struct ResolveConfig {
    pub overrides: Option<Vec<ModuleOverride>>,
    pub externals: Option<Vec<String>>,
    pub extensions: Option<Vec<String>>,
}

pub struct ModuleOverride {
    pub module: String,
    pub path: String,
}

/// `[loaders]`: named shell commands and the rules that apply loaders to files.
pub struct LoadersConfig {
    pub commands: Option<Vec<(String, String)>>,
    pub rules: Option<Vec<LoaderRule>>,
}

/// `[[loaders.rules]]`: files matching `test` go through the loaders named in
/// `use` (`@name` for a built-in one) and then the inline command `run`; with
/// `mode`, only in that build mode.
pub struct LoaderRule {
    pub test: String,
    pub use_: Option<Vec<String>>,
    pub run: Option<String>,
    pub mode: Option<String>,
}

/// `[sandbox]`: the level (`error` by default) and the denied globals.
pub struct SandboxConfig {
    pub level: Option<String>,
    pub deny: Option<Vec<String>>,
}

/// `[compat]`: the level (`error` by default) and the checks to skip.
pub struct CompatSettings {
    pub level: Option<String>,
    pub ignore: Option<Vec<String>>,
}

impl Default for Config {
    fn default() -> (r: Self)
        ensures
            r.bundle is None,
            r.paths is None,
            r.inject is None,
            r.resolve is None,
            r.loaders is None,
            r.sandbox is None,
            r.compat is None,
    {
        Config {
            bundle: None,
            paths: None,
            inject: None,
            resolve: None,
            loaders: None,
            sandbox: None,
            compat: None,
        }
    }
}

impl Default for ResolveConfig {
    fn default() -> (r: Self)
        ensures
            r.overrides is None,
            r.externals is None,
            r.extensions is None,
    {
        ResolveConfig { overrides: None, externals: None, extensions: None }
    }
}

/// The JSON text from position `i` on with its comments removed; `in_block`
/// tells whether `i` lies inside a `/* ... */` comment. String literals are
/// kept as they are, a `//` comment goes up to and keeps its line ending, a
/// block comment keeps only its line endings.
pub open spec fn jsonc_from(s: Seq<char>, i: int, in_block: bool) -> Seq<char>
    decreases s.len() - i,
{
    if i < 0 || i >= s.len() {
        Seq::empty()
    } else if in_block {
        if s[i] == '*' && i + 1 < s.len() && s[i + 1] == '/' {
            jsonc_from(s, i + 2, false)
        } else {
            (if s[i] == '\n' {
                seq!['\n']
            } else {
                Seq::empty()
            }) + jsonc_from(s, i + 1, true)
        }
    } else if s[i] == '"' {
        proof {
            lemma_quote_end(s, '"', i + 1);
        }
        let e = quote_end(s, '"', i + 1);
        s.subrange(i, e) + jsonc_from(s, e, false)
    } else if s[i] == '/' && i + 1 < s.len() && s[i + 1] == '/' {
        proof {
            lemma_line_end(s, i + 2);
        }
        let e = line_end(s, i + 2);
        if e < s.len() {
            seq!['\n'] + jsonc_from(s, e + 1, false)
        } else {
            Seq::empty()
        }
    } else if s[i] == '/' && i + 1 < s.len() && s[i + 1] == '*' {
        jsonc_from(s, i + 2, true)
    } else {
        seq![s[i]] + jsonc_from(s, i + 1, false)
    }
}

/// Text without `/` holds no comment: stripping leaves it as it is.
pub proof fn lemma_jsonc_without_slash(source: Seq<char>)
    requires
        forall|k: int| 0 <= k < source.len() ==> source[k] != '/',
    ensures
        jsonc_from(source, 0, false) == source,
{
    lemma_jsonc_plain_from(source, 0);
    assert(source.subrange(0, source.len() as int) =~= source);
}

proof fn lemma_jsonc_plain_from(s: Seq<char>, i: int)
    requires
        0 <= i <= s.len(),
        forall|k: int| 0 <= k < s.len() ==> s[k] != '/',
    ensures
        jsonc_from(s, i, false) == s.subrange(i, s.len() as int),
    decreases s.len() - i,
{
    if i < s.len() {
        if s[i] == '"' {
            lemma_quote_end(s, '"', i + 1);
            let e = quote_end(s, '"', i + 1);
            lemma_jsonc_plain_from(s, e);
            assert(s.subrange(i, e) + s.subrange(e, s.len() as int) =~= s.subrange(i, s.len() as int));
        } else {
            lemma_jsonc_plain_from(s, i + 1);
            assert(seq![s[i]] + s.subrange(i + 1, s.len() as int) =~= s.subrange(i, s.len() as int));
        }
    } else {
        assert(s.subrange(i, s.len() as int) =~= Seq::<char>::empty());
    }
}

/// A string literal met outside a comment is copied as it is, up to its
/// closing quote (a backslash takes the next character with it), before the
/// rest of the text is stripped.
pub proof fn lemma_jsonc_keeps_string(source: Seq<char>, i: int)
    requires
        0 <= i < source.len(),
        source[i] == '"',
    ensures
        jsonc_from(source, i, false) == source.subrange(i, quote_end(source, '"', i + 1)) + jsonc_from(
            source,
            quote_end(source, '"', i + 1),
            false,
        ),
{
}

/// Removing comments keeps every line ending, so a position that the JSON
/// parser reports in the stripped text names the same line of the file.
pub proof fn lemma_jsonc_keeps_line_endings(source: Seq<char>)
    ensures
        count_char(jsonc_from(source, 0, false), '\n') == count_char(source, '\n'),
{
    lemma_jsonc_from_count(source, 0, false);
    assert(source.subrange(0, source.len() as int) == source);
}

proof fn lemma_no_newline_between(s: Seq<char>, a: int, b: int)
    requires
        0 <= a <= b <= s.len(),
        forall|k: int| a <= k < b ==> s[k] != '\n',
    ensures
        count_char(s.subrange(a, b), '\n') == 0,
{
    let t = s.subrange(a, b);
    assert forall|k: int| 0 <= k < t.len() implies t[k] != '\n' by {
        assert(t[k] == s[a + k]);
    }
    lemma_count_none(t);
}

proof fn lemma_jsonc_from_count(s: Seq<char>, i: int, in_block: bool)
    requires
        0 <= i <= s.len(),
    ensures
        count_char(jsonc_from(s, i, in_block), '\n') == count_char(s.subrange(i, s.len() as int), '\n'),
    decreases s.len() - i,
{
    let n = s.len() as int;
    if i < n {
        lemma_count_char_single(s[i], '\n');
        assert(s.subrange(i, i + 1) =~= seq![s[i]]);
        lemma_count_char_split(s, i, i + 1, n, '\n');
        if in_block {
            if s[i] == '*' && i + 1 < n && s[i + 1] == '/' {
                lemma_jsonc_from_count(s, i + 2, false);
                lemma_no_newline_between(s, i, i + 2);
                lemma_count_char_split(s, i, i + 2, n, '\n');
            } else {
                lemma_jsonc_from_count(s, i + 1, true);
                let head = if s[i] == '\n' { seq!['\n'] } else { Seq::<char>::empty() };
                lemma_count_char_concat(head, jsonc_from(s, i + 1, true), '\n');
                lemma_count_char_single('\n', '\n');
            }
        } else if s[i] == '"' {
            lemma_quote_end(s, '"', i + 1);
            let e = quote_end(s, '"', i + 1);
            lemma_jsonc_from_count(s, e, false);
            lemma_count_char_concat(s.subrange(i, e), jsonc_from(s, e, false), '\n');
            lemma_count_char_split(s, i, e, n, '\n');
        } else if s[i] == '/' && i + 1 < n && s[i + 1] == '/' {
            lemma_line_end(s, i + 2);
            let e = line_end(s, i + 2);
            lemma_no_newline_between(s, i, e);
            lemma_count_char_split(s, i, e, n, '\n');
            if e < n {
                lemma_jsonc_from_count(s, e + 1, false);
                assert(s.subrange(e, e + 1) =~= seq!['\n']);
                lemma_count_char_split(s, e, e + 1, n, '\n');
                lemma_count_char_concat(seq!['\n'], jsonc_from(s, e + 1, false), '\n');
            } else {
                assert(s.subrange(e, n) =~= Seq::<char>::empty());
            }
        } else if s[i] == '/' && i + 1 < n && s[i + 1] == '*' {
            lemma_jsonc_from_count(s, i + 2, true);
            lemma_no_newline_between(s, i, i + 2);
            lemma_count_char_split(s, i, i + 2, n, '\n');
        } else {
            lemma_jsonc_from_count(s, i + 1, false);
            lemma_count_char_concat(seq![s[i]], jsonc_from(s, i + 1, false), '\n');
        }
    }
}

/// Removes `//` and `/* */` comments from JSON text, leaving string literals
/// alone and keeping line endings so that line numbers stay accurate.
pub fn strip_jsonc_comments(source: &str) -> (r: String)
    ensures
        r@ == jsonc_from(source@, 0, false),
{
    let s = str_chars(source);
    let len = s.len();
    let mut out: Vec<char> = Vec::new();
    let mut i: usize = 0;
    while i < len
        invariant
            len == s@.len(),
            i <= len,
            out@ + jsonc_from(s@, i as int, false) == jsonc_from(s@, 0, false),
        decreases len - i,
    {
        let start = i;
        let c = s[i];
        if c == '"' {
            // string literal: pass through without stripping
            i = i + 1;
            proof {
                lemma_quote_end(s@, '"', i as int);
            }
            while i < len && s[i] != '"'
                invariant
                    len == s@.len(),
                    start + 1 <= i <= len,
                    quote_end(s@, '"', i as int) == quote_end(s@, '"', start + 1),
                decreases len - i,
            {
                if s[i] == '\\' && i + 1 < len {
                    // escaped char: take the next one unconditionally
                    i = i + 2;
                } else {
                    i = i + 1;
                }
            }
            if i < len {
                i = i + 1;
            }
            let mut k = start;
            while k < i
                invariant
                    start <= k <= i <= len,
                    len == s@.len(),
                    out@ + s@.subrange(k as int, i as int) + jsonc_from(s@, i as int, false)
                        == jsonc_from(s@, 0, false),
                decreases i - k,
            {
                assert(s@.subrange(k as int, i as int) == seq![s@[k as int]] + s@.subrange(
                    k + 1 as int,
                    i as int,
                ));
                out.push(s[k]);
                k = k + 1;
            }
            assert(s@.subrange(i as int, i as int) == Seq::<char>::empty());
        } else if c == '/' && i + 1 < len && s[i + 1] == '/' {
            // line comment: skip to end of line
            i = i + 2;
            proof {
                lemma_line_end(s@, i as int);
            }
            while i < len && s[i] != '\n'
                invariant
                    len == s@.len(),
                    start + 2 <= i <= len,
                    line_end(s@, i as int) == line_end(s@, start + 2),
                decreases len - i,
            {
                i = i + 1;
            }
            if i < len {
                out.push('\n');
                i = i + 1;
            }
        } else if c == '/' && i + 1 < len && s[i + 1] == '*' {
            // block comment: skip to */
            i = i + 2;
            while i < len
                invariant_except_break
                    len == s@.len(),
                    start + 2 <= i <= len,
                    out@ + jsonc_from(s@, i as int, true) == jsonc_from(s@, 0, false),
                ensures
                    len == s@.len(),
                    start + 2 <= i <= len,
                    out@ + jsonc_from(s@, i as int, false) == jsonc_from(s@, 0, false),
                decreases len - i,
            {
                let d = s[i];
                if d == '*' && i + 1 < len && s[i + 1] == '/' {
                    i = i + 2;
                    break;
                }
                // preserve newlines so line numbers stay accurate
                if d == '\n' {
                    out.push('\n');
                }
                i = i + 1;
            }
        } else {
            out.push(c);
            i = i + 1;
        }
    }
    chars_to_string(&out)
}

} // verus!
