//! Basic Lua minification for production builds.
//!
//! Strips comments and unnecessary whitespace while preserving string
//! and multiline-string contents.
use vstd::prelude::*;

use crate::text::{
    char_is_whitespace, chars_to_string, is_whitespace_char, lemma_lines_have_no_newline, lemma_trim_end_prefix,
    lines, push_chars, split_lines, str_chars, trim_end, trim_end_chars,
};

verus! {

/// Position just past a quoted string whose body starts at `i`: the closing
/// `quote`, or the end of the text. A backslash takes the next character with it.
pub open spec fn quote_end(s: Seq<char>, quote: char, i: int) -> int
    decreases s.len() - i,
{
    if i < 0 || i >= s.len() {
        s.len() as int
    } else if s[i] == quote {
        i + 1
    } else if s[i] == '\\' && i + 1 < s.len() {
        quote_end(s, quote, i + 2)
    } else {
        quote_end(s, quote, i + 1)
    }
}

/// Position just past a long string `[[ ... ]]` whose body starts at `i` at
/// nesting `depth`; the scan also stops one character before the end of the text.
pub open spec fn long_end(s: Seq<char>, i: int, depth: nat) -> int
    decreases s.len() - i,
{
    if i < 0 || !(i + 1 < s.len() && depth > 0) {
        i
    } else if s[i] == ']' && s[i + 1] == ']' {
        long_end(s, i + 2, (depth - 1) as nat)
    } else if s[i] == '[' && s[i + 1] == '[' {
        long_end(s, i + 1, depth + 1)
    } else {
        long_end(s, i + 1, depth)
    }
}

/// Position just past the `]]` that closes a block comment whose body starts
/// at `i`, or the end of the text when none closes it.
pub open spec fn block_end(s: Seq<char>, i: int) -> int
    decreases s.len() - i,
{
    if i < 0 || i >= s.len() {
        i
    } else if i + 1 >= s.len() {
        s.len() as int
    } else if s[i] == ']' && s[i + 1] == ']' {
        i + 2
    } else {
        block_end(s, i + 1)
    }
}

/// Position of the `'\n'` that ends a line comment started before `i`, or the
/// end of the text.
pub open spec fn line_end(s: Seq<char>, i: int) -> int
    decreases s.len() - i,
{
    if i < 0 || i >= s.len() || s[i] == '\n' {
        i
    } else {
        line_end(s, i + 1)
    }
}

pub proof fn lemma_quote_end(s: Seq<char>, quote: char, i: int)
    requires
        0 <= i,
    ensures
        i <= s.len() ==> i <= quote_end(s, quote, i) <= s.len(),
        i > s.len() ==> quote_end(s, quote, i) == s.len(),
    decreases s.len() - i,
{
    if i < s.len() && s[i] != quote {
        if s[i] == '\\' && i + 1 < s.len() {
            lemma_quote_end(s, quote, i + 2);
        } else {
            lemma_quote_end(s, quote, i + 1);
        }
    }
}

pub proof fn lemma_long_end(s: Seq<char>, i: int, depth: nat)
    requires
        0 <= i,
    ensures
        i <= long_end(s, i, depth),
        i <= s.len() ==> long_end(s, i, depth) <= s.len(),
        i > s.len() ==> long_end(s, i, depth) == i,
    decreases s.len() - i,
{
    if i + 1 < s.len() && depth > 0 {
        if s[i] == ']' && s[i + 1] == ']' {
            lemma_long_end(s, i + 2, (depth - 1) as nat);
        } else if s[i] == '[' && s[i + 1] == '[' {
            lemma_long_end(s, i + 1, depth + 1);
        } else {
            lemma_long_end(s, i + 1, depth);
        }
    }
}

pub proof fn lemma_block_end(s: Seq<char>, i: int)
    requires
        0 <= i,
    ensures
        i <= block_end(s, i),
        i <= s.len() ==> block_end(s, i) <= s.len(),
        i > s.len() ==> block_end(s, i) == i,
    decreases s.len() - i,
{
    if i + 1 < s.len() && !(s[i] == ']' && s[i + 1] == ']') {
        lemma_block_end(s, i + 1);
    }
}

pub proof fn lemma_line_end(s: Seq<char>, i: int)
    requires
        0 <= i <= s.len(),
    ensures
        i <= line_end(s, i) <= s.len(),
        line_end(s, i) < s.len() ==> s[line_end(s, i)] == '\n',
        forall|k: int| i <= k < line_end(s, i) ==> s[k] != '\n',
    decreases s.len() - i,
{
    if i < s.len() && s[i] != '\n' {
        lemma_line_end(s, i + 1);
    }
}

/// The text from position `i` on with its comments removed: `--[[ ... ]]`
/// block comments (to the end of the text when unclosed), and other `--`
/// comments up to (not including) the line ending; quoted strings and
/// `[[ ... ]]` long strings are kept as they are.
pub open spec fn strip_from(s: Seq<char>, i: int) -> Seq<char>
    decreases s.len() - i,
{
    if i < 0 || i >= s.len() {
        Seq::empty()
    } else if s[i] == '"' || s[i] == '\'' {
        proof {
            lemma_quote_end(s, s[i], i + 1);
        }
        let e = quote_end(s, s[i], i + 1);
        s.subrange(i, e) + strip_from(s, e)
    } else if s[i] == '[' && i + 1 < s.len() && s[i + 1] == '[' {
        proof {
            lemma_long_end(s, i + 2, 1);
        }
        let e = long_end(s, i + 2, 1);
        s.subrange(i, e) + strip_from(s, e)
    } else if s[i] == '-' && i + 1 < s.len() && s[i + 1] == '-' {
        if i + 3 < s.len() && s[i + 2] == '[' && s[i + 3] == '[' {
            proof {
                lemma_block_end(s, i + 4);
            }
            strip_from(s, block_end(s, i + 4))
        } else {
            proof {
                lemma_line_end(s, i + 2);
            }
            strip_from(s, line_end(s, i + 2))
        }
    } else {
        seq![s[i]] + strip_from(s, i + 1)
    }
}

proof fn lemma_quote_end_plain(s: Seq<char>, q: char, k: int, j: int)
    requires
        0 <= k <= j < s.len(),
        s[j] == q,
        forall|m: int| k <= m < j ==> s[m] != q && s[m] != '\\',
    ensures
        quote_end(s, q, k) == j + 1,
    decreases j - k,
{
    if k < j {
        lemma_quote_end_plain(s, q, k + 1, j);
    }
}

/// A quoted string, `"..."` or `'...'`, whose body holds neither its quote
/// nor a backslash, ends at the next such quote: stripping keeps it exactly
/// and goes on right after its closing quote, so a comment marker inside it
/// is text and one after it is a comment.
pub proof fn lemma_plain_string_kept(s: Seq<char>, i: int, j: int)
    requires
        0 <= i < j < s.len(),
        s[i] == '"' || s[i] == '\'',
        s[j] == s[i],
        forall|k: int| i < k < j ==> s[k] != s[i] && s[k] != '\\',
    ensures
        strip_from(s, i) == s.subrange(i, j + 1) + strip_from(s, j + 1),
{
    lemma_quote_end_plain(s, s[i], i + 1, j);
}

proof fn lemma_line_end_at(s: Seq<char>, k: int, e: int)
    requires
        0 <= k <= e <= s.len(),
        e == s.len() || s[e] == '\n',
        forall|m: int| k <= m < e ==> s[m] != '\n',
    ensures
        line_end(s, k) == e,
    decreases e - k,
{
    if k < e {
        lemma_line_end_at(s, k + 1, e);
    }
}

/// A `--` comment that does not open with `--[[` runs to the end of its
/// line: stripping drops it and keeps the line ending.
pub proof fn lemma_line_comment_dropped(s: Seq<char>, i: int, e: int)
    requires
        0 <= i,
        i + 2 <= e <= s.len(),
        s[i] == '-' && s[i + 1] == '-',
        !(i + 3 < s.len() && s[i + 2] == '[' && s[i + 3] == '['),
        e == s.len() || s[e] == '\n',
        forall|m: int| i <= m < e ==> s[m] != '\n',
    ensures
        strip_from(s, i) == strip_from(s, e),
{
    lemma_line_end_at(s, i + 2, e);
}

proof fn lemma_block_end_at(s: Seq<char>, k: int, j: int)
    requires
        0 <= k <= j,
        j + 1 < s.len(),
        s[j] == ']' && s[j + 1] == ']',
        forall|m: int| k <= m < j ==> !(#[trigger] s[m] == ']' && s[m + 1] == ']'),
    ensures
        block_end(s, k) == j + 2,
    decreases j - k,
{
    if k < j {
        lemma_block_end_at(s, k + 1, j);
    }
}

/// A `--[[` comment runs to the first `]]` after it: stripping drops all of
/// it, line endings included.
pub proof fn lemma_block_comment_dropped(s: Seq<char>, i: int, j: int)
    requires
        0 <= i,
        i + 4 <= j,
        j + 1 < s.len(),
        s[i] == '-' && s[i + 1] == '-' && s[i + 2] == '[' && s[i + 3] == '[',
        s[j] == ']' && s[j + 1] == ']',
        forall|m: int| i + 4 <= m < j ==> !(#[trigger] s[m] == ']' && s[m + 1] == ']'),
    ensures
        strip_from(s, i) == strip_from(s, j + 2),
{
    lemma_block_end_at(s, i + 4, j);
}

/// `source` with its comments removed.
pub open spec fn spec_strip_comments(source: Seq<char>) -> Seq<char> {
    strip_from(source, 0)
}

/// Copies `s[from..to]` onto `out`.
fn push_range(out: &mut Vec<char>, s: &Vec<char>, from: usize, to: usize)
    requires
        from <= to <= s@.len(),
    ensures
        final(out)@ == old(out)@ + s@.subrange(from as int, to as int),
{
    let mut k = from;
    while k < to
        invariant
            from <= k <= to <= s@.len(),
            out@ == old(out)@ + s@.subrange(from as int, k as int),
        decreases to - k,
    {
        out.push(s[k]);
        k = k + 1;
        assert(s@.subrange(from as int, k as int) == s@.subrange(from as int, k - 1 as int).push(
            s@[k - 1],
        ));
    }
}

/// Strip `--` line comments and `--[[ ... ]]` block comments, preserving
/// string literals so `"-- not a comment"` is left alone.
pub fn strip_comments(source: &str) -> (r: String)
    ensures
        r@ == spec_strip_comments(source@),
{
    let s = str_chars(source);
    let len = s.len();
    let mut out: Vec<char> = Vec::new();
    let mut i: usize = 0;
    while i < len
        invariant
            len == s@.len(),
            i <= len,
            out@ + strip_from(s@, i as int) == strip_from(s@, 0),
        decreases len - i,
    {
        let start: usize = i;
        let c = s[i];
        if c == '"' || c == '\'' {
            // string literal: pass through unchanged
            i = i + 1;
            proof {
                lemma_quote_end(s@, c, i as int);
            }
            while i < len && s[i] != c
                invariant
                    len == s@.len(),
                    start + 1 <= i <= len,
                    quote_end(s@, c, i as int) == quote_end(s@, c, start + 1),
                decreases len - i,
            {
                if s[i] == '\\' && i + 1 < len {
                    i = i + 2;
                } else {
                    i = i + 1;
                }
            }
            if i < len {
                i = i + 1;
            }
            push_range(&mut out, &s, start, i);
            continue;
        }
        if c == '[' && i + 1 < len && s[i + 1] == '[' {
            // long string `[[ ... ]]`: pass through
            i = i + 2;
            let mut depth: usize = 1;
            proof {
                lemma_long_end(s@, i as int, 1);
            }
            while i < len && i + 1 < len && depth > 0
                invariant
                    len == s@.len(),
                    start + 2 <= i <= len,
                    depth <= i,
                    long_end(s@, i as int, depth as nat) == long_end(s@, start + 2, 1),
                decreases len - i,
            {
                if s[i] == ']' && s[i + 1] == ']' {
                    i = i + 2;
                    depth = depth - 1;
                } else {
                    if s[i] == '[' && s[i + 1] == '[' {
                        depth = depth + 1;
                    }
                    i = i + 1;
                }
            }
            push_range(&mut out, &s, start, i);
            continue;
        }
        if c == '-' && i + 1 < len && s[i + 1] == '-' {
            if i + 2 < len && s[i + 2] == '[' && i + 3 < len && s[i + 3] == '[' {
                // block comment: skip through the closing `]]`, or to the end
                i = i + 4;
                proof {
                    lemma_block_end(s@, i as int);
                }
                while i < len
                    invariant_except_break
                        len == s@.len(),
                        start + 4 <= i <= len,
                        block_end(s@, i as int) == block_end(s@, start + 4),
                    ensures
                        start + 4 <= i <= len,
                        i as int == block_end(s@, start + 4),
                    decreases len - i,
                {
                    if i + 1 < len && s[i] == ']' && s[i + 1] == ']' {
                        i = i + 2;
                        break;
                    }
                    if i + 1 >= len {
                        i = len;
                        break;
                    }
                    i = i + 1;
                }
                continue;
            }
            // line comment: skip to the end of the line, keeping the newline
            i = i + 2;
            proof {
                lemma_line_end(s@, i as int);
            }
            while i < len && s[i] != '\n'
                invariant
                    len == s@.len(),
                    start + 2 <= i <= len,
                    line_end(s@, i as int) == line_end(s@, start + 2),
                decreases len - i,
            {
                i = i + 1;
            }
            continue;
        }
        out.push(c);
        i = i + 1;
    }
    chars_to_string(&out)
}

/// The state after folding `ls[0..k]` into the collapsed text: the text so far
/// and whether the last line kept was blank.
pub open spec fn collapse_upto(ls: Seq<Seq<char>>, k: int) -> (Seq<char>, bool)
    decreases k,
{
    if k <= 0 {
        (Seq::empty(), false)
    } else {
        let (out, prev_blank) = collapse_upto(ls, k - 1);
        let t = trim_end(ls[k - 1]);
        let blank = t.len() == 0;
        if blank && prev_blank {
            (out, prev_blank)
        } else {
            let sep = if out.len() == 0 { Seq::<char>::empty() } else { seq!['\n'] };
            (out + sep + t, blank)
        }
    }
}

/// `source` with the trailing whitespace of each line removed and runs of
/// blank lines collapsed into one, lines joined by `'\n'`.
pub open spec fn spec_collapse_whitespace(source: Seq<char>) -> Seq<char> {
    collapse_upto(lines(source), lines(source).len() as int).0
}

/// Collapse repeated blank lines into one, trim trailing whitespace on
/// each line, and strip leading/trailing blank lines.
pub fn collapse_whitespace(source: &str) -> (r: String)
    ensures
        r@ == spec_collapse_whitespace(source@),
{
    let s = str_chars(source);
    let ls = split_lines(&s);
    let mut out: Vec<char> = Vec::new();
    let mut prev_blank = false;
    let mut k: usize = 0;
    while k < ls.len()
        invariant
            k <= ls@.len(),
            ls@.len() == lines(s@).len(),
            forall|m: int| 0 <= m < ls@.len() ==> #[trigger] ls@[m]@ == lines(s@)[m],
            (out@, prev_blank) == collapse_upto(lines(s@), k as int),
        decreases ls@.len() - k,
    {
        let t = trim_end_chars(&ls[k]);
        let is_blank = t.len() == 0;
        if is_blank && prev_blank {
            k = k + 1;
            continue;
        }
        if out.len() > 0 {
            out.push('\n');
        }
        push_chars(&mut out, &t);
        prev_blank = is_blank;
        k = k + 1;
    }
    chars_to_string(&out)
}

/// The last character of a line trimmed at its end is no whitespace.
proof fn lemma_trim_end_last(s: Seq<char>)
    ensures
        trim_end(s).len() > 0 ==> !is_whitespace_char(trim_end(s).last()),
    decreases s.len(),
{
    if s.len() > 0 && is_whitespace_char(s.last()) {
        lemma_trim_end_last(s.drop_last());
    }
}

/// The shape of collapsed text, as the fold builds it: no three line endings
/// in a row; a line ending follows a line ending or a non-whitespace
/// character; after a kept blank line the text ends with a single line
/// ending, after another kept line with a character that is neither a line
/// ending nor whitespace.
spec fn collapsed_shape(out: Seq<char>, prev_blank: bool) -> bool {
    &&& forall|i: int| 0 <= i && i + 2 < out.len() ==> !(#[trigger] out[i] == '\n' && out[i + 1] == '\n' && out[i + 2] == '\n')
    &&& forall|i: int| 0 < i < out.len() && #[trigger] out[i] == '\n' ==> out[i - 1] == '\n' || !is_whitespace_char(out[i - 1])
    &&& (prev_blank && out.len() > 0) ==> out.last() == '\n' && (out.len() >= 2 ==> out[out.len() - 2] != '\n')
    &&& (!prev_blank && out.len() > 0) ==> out.last() != '\n' && !is_whitespace_char(out.last())
}

proof fn lemma_collapse_upto_shape(ls: Seq<Seq<char>>, k: int)
    requires
        0 <= k <= ls.len(),
        forall|i: int, j: int| 0 <= i < ls.len() && 0 <= j < ls[i].len() ==> #[trigger] ls[i][j] != '\n',
    ensures
        collapsed_shape(collapse_upto(ls, k).0, collapse_upto(ls, k).1),
    decreases k,
{
    if k > 0 {
        lemma_collapse_upto_shape(ls, k - 1);
        let (out, prev_blank) = collapse_upto(ls, k - 1);
        let line = ls[k - 1];
        let t = trim_end(line);
        lemma_trim_end_prefix(line);
        lemma_trim_end_last(line);
        assert forall|j: int| 0 <= j < t.len() implies t[j] != '\n' by {
            assert(t[j] == line[j]);
            assert(ls[k - 1][j] != '\n');
        }
        let blank = t.len() == 0;
        if !(blank && prev_blank) {
            let sep = if out.len() == 0 { Seq::<char>::empty() } else { seq!['\n'] };
            let r = out + sep + t;
            let l = out.len() as int;
            if out.len() == 0 {
                assert(r =~= t);
            } else {
                assert(r[l] == '\n');
                assert forall|i: int| 0 <= i < l implies r[i] == out[i] by {}
                assert forall|i: int| l < i < r.len() implies r[i] == t[i - l - 1] by {}
                assert forall|i: int| 0 <= i && i + 2 < r.len() implies !(#[trigger] r[i] == '\n' && r[i + 1] == '\n' && r[i + 2] == '\n') by {
                    if i + 2 < l {
                        assert(r[i] == out[i] && r[i + 1] == out[i + 1] && r[i + 2] == out[i + 2]);
                    } else if i + 2 == l {
                        assert(r[i] == out[l - 2] && r[i + 1] == out[l - 1]);
                    } else if i + 1 == l {
                        assert(r[i] == out[l - 1]);
                    } else {
                        assert(r[i + 1] == t[i - l]);
                    }
                }
                assert forall|i: int| 0 < i < r.len() && #[trigger] r[i] == '\n' implies r[i - 1] == '\n' || !is_whitespace_char(r[i - 1]) by {
                    if i < l {
                        assert(r[i] == out[i] && r[i - 1] == out[i - 1]);
                    } else if i == l {
                        assert(r[i - 1] == out[l - 1]);
                    } else {
                        assert(r[i] == t[i - l - 1]);
                    }
                }
                if blank {
                    assert(r =~= out.push('\n'));
                } else {
                    assert(r.last() == t.last());
                }
            }
        }
    }
}

/// Collapsed text has no run of two blank lines and no line that ends in
/// whitespace: no three line endings in a row, every line ending follows a
/// line ending or a non-whitespace character, and the text ends with a line
/// ending or a non-whitespace character.
pub proof fn lemma_collapse_whitespace_shape(source: Seq<char>)
    ensures
        forall|i: int|
            0 <= i && i + 2 < spec_collapse_whitespace(source).len() ==> !(
            #[trigger] spec_collapse_whitespace(source)[i] == '\n' && spec_collapse_whitespace(source)[i + 1] == '\n'
                && spec_collapse_whitespace(source)[i + 2] == '\n'),
        forall|i: int|
            0 < i < spec_collapse_whitespace(source).len() && #[trigger] spec_collapse_whitespace(source)[i] == '\n'
                ==> spec_collapse_whitespace(source)[i - 1] == '\n' || !is_whitespace_char(
                spec_collapse_whitespace(source)[i - 1],
            ),
        spec_collapse_whitespace(source).len() > 0 ==> spec_collapse_whitespace(source).last() == '\n'
            || !is_whitespace_char(spec_collapse_whitespace(source).last()),
{
    lemma_lines_have_no_newline(source);
    lemma_collapse_upto_shape(lines(source), lines(source).len() as int);
}

/// `source` minified: comments stripped, then whitespace collapsed.
pub open spec fn spec_minify(source: Seq<char>) -> Seq<char> {
    spec_collapse_whitespace(spec_strip_comments(source))
}

proof fn lemma_collapse_upto_first(ls: Seq<Seq<char>>, k: int)
    requires
        0 <= k <= ls.len(),
        forall|i: int, j: int| 0 <= i < ls.len() && 0 <= j < ls[i].len() ==> #[trigger] ls[i][j] != '\n',
    ensures
        collapse_upto(ls, k).0.len() > 0 ==> collapse_upto(ls, k).0[0] != '\n',
    decreases k,
{
    if k > 0 {
        lemma_collapse_upto_first(ls, k - 1);
        let (out, prev_blank) = collapse_upto(ls, k - 1);
        let line = ls[k - 1];
        let t = trim_end(line);
        lemma_trim_end_prefix(line);
        if out.len() == 0 && t.len() > 0 {
            assert(t[0] == line[0]);
            assert(ls[k - 1][0] != '\n');
            assert((out + Seq::<char>::empty() + t)[0] == t[0]);
        } else if out.len() > 0 {
            let sep = seq!['\n'];
            assert((out + sep + t)[0] == out[0]);
        }
    }
}

/// Minified code starts with no blank line, has no run of two blank lines
/// and no line that ends in whitespace: its first character is no line
/// ending, no three line endings stand in a row, and every line ending (and
/// the end of the text) follows a line ending or a non-whitespace character.
pub proof fn lemma_minify_shape(source: Seq<char>)
    ensures
        spec_minify(source).len() > 0 ==> spec_minify(source)[0] != '\n',
        forall|i: int|
            0 <= i && i + 2 < spec_minify(source).len() ==> !(#[trigger] spec_minify(source)[i] == '\n'
                && spec_minify(source)[i + 1] == '\n' && spec_minify(source)[i + 2] == '\n'),
        forall|i: int|
            0 < i < spec_minify(source).len() && #[trigger] spec_minify(source)[i] == '\n' ==> spec_minify(source)[i
                - 1] == '\n' || !is_whitespace_char(spec_minify(source)[i - 1]),
        spec_minify(source).len() > 0 ==> spec_minify(source).last() == '\n' || !is_whitespace_char(
            spec_minify(source).last(),
        ),
{
    let s = spec_strip_comments(source);
    lemma_collapse_whitespace_shape(s);
    lemma_lines_have_no_newline(s);
    lemma_collapse_upto_first(lines(s), lines(s).len() as int);
}

/// Basic Lua minification for production builds.
pub fn minify_lua(source: &str) -> (r: String)
    ensures
        r@ == spec_minify(source@),
{
    let stripped = strip_comments(source);
    collapse_whitespace(stripped.as_str())
}

} // verus!
