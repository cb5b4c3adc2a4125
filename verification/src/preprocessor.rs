//! Preprocesses Lua code before being bundled
//!
//! changes -
//!   Removes `global` syntax from Lua 5.5 code
use vstd::prelude::*;

use crate::text::{
    chars_to_string, count_char, lemma_count_char_concat, lemma_count_char_single, lemma_count_none,
    lemma_lines_have_no_newline, lemma_lines_push_line, lemma_trim_start_drop_last, lines, push_chars,
    split_lines, starts_with, str_chars, trim_start, trimmed_starts_with, without_cr,
};

verus! {

/// The keyword, with its separating space, that opens a Lua 5.5 `global` declaration.
pub open spec fn global_prefix() -> Seq<char> {
    seq!['g', 'l', 'o', 'b', 'a', 'l', ' ']
}

/// Whether a line is a Lua 5.5 `global` declaration.
pub open spec fn is_global_decl(line: Seq<char>) -> bool {
    starts_with(trim_start(line), global_prefix())
}

/// The first `k` lines preprocessed: each line kept unless it is a `global`
/// declaration, every line (kept or not) ended by `'\n'`.
pub open spec fn preprocess_upto(ls: Seq<Seq<char>>, k: int) -> Seq<char>
    decreases k,
{
    if k <= 0 {
        Seq::empty()
    } else {
        let kept = if is_global_decl(ls[k - 1]) { Seq::<char>::empty() } else { ls[k - 1] };
        preprocess_upto(ls, k - 1) + kept + seq!['\n']
    }
}

/// `source` preprocessed.
pub open spec fn spec_preprocess(source: Seq<char>) -> Seq<char> {
    preprocess_upto(lines(source), lines(source).len() as int)
}

/// Preprocessing keeps the numbering of lines: the result has exactly one
/// line ending per line of the source, so a position the parser reports in
/// the preprocessed text names the same line of the source.
pub proof fn lemma_preprocess_keeps_lines(source: Seq<char>)
    ensures
        count_char(spec_preprocess(source), '\n') == lines(source).len(),
{
    lemma_lines_have_no_newline(source);
    lemma_preprocess_upto_count(lines(source), lines(source).len() as int);
}

proof fn lemma_preprocess_upto_count(ls: Seq<Seq<char>>, k: int)
    requires
        0 <= k <= ls.len(),
        forall|i: int, j: int| 0 <= i < ls.len() && 0 <= j < ls[i].len() ==> #[trigger] ls[i][j] != '\n',
    ensures
        count_char(preprocess_upto(ls, k), '\n') == k,
    decreases k,
{
    if k > 0 {
        lemma_preprocess_upto_count(ls, k - 1);
        let kept = if is_global_decl(ls[k - 1]) { Seq::<char>::empty() } else { ls[k - 1] };
        assert forall|j: int| 0 <= j < kept.len() implies kept[j] != '\n' by {
            assert(ls[k - 1][j] != '\n');
        }
        lemma_count_none(kept);
        lemma_count_char_concat(preprocess_upto(ls, k - 1), kept, '\n');
        lemma_count_char_concat(preprocess_upto(ls, k - 1) + kept, seq!['\n'], '\n');
        lemma_count_char_single('\n', '\n');
    }
}

/// A source line as preprocessing leaves it: emptied when it is a `global`
/// declaration.
pub open spec fn kept_line(line: Seq<char>) -> Seq<char> {
    if is_global_decl(line) {
        Seq::empty()
    } else {
        line
    }
}

proof fn lemma_preprocess_upto_lines(ls: Seq<Seq<char>>, k: int)
    requires
        0 <= k <= ls.len(),
        forall|i: int, j: int| 0 <= i < ls.len() && 0 <= j < ls[i].len() ==> #[trigger] ls[i][j] != '\n',
    ensures
        lines(preprocess_upto(ls, k)) == Seq::new(k as nat, |i: int| without_cr(kept_line(ls[i]))),
        preprocess_upto(ls, k).len() == 0 || preprocess_upto(ls, k).last() == '\n',
    decreases k,
{
    if k > 0 {
        lemma_preprocess_upto_lines(ls, k - 1);
        let prev = preprocess_upto(ls, k - 1);
        let kept = kept_line(ls[k - 1]);
        assert forall|j: int| 0 <= j < kept.len() implies kept[j] != '\n' by {
            assert(ls[k - 1][j] != '\n');
        }
        lemma_lines_push_line(prev, kept);
        assert(preprocess_upto(ls, k) =~= prev + kept.push('\n'));
        assert(lines(preprocess_upto(ls, k)) =~= Seq::new(k as nat, |i: int| without_cr(kept_line(ls[i]))));
    } else {
        assert(lines(Seq::<char>::empty()) =~= Seq::<Seq<char>>::empty());
    }
}

/// A line that is no `global` declaration stays none without a `'\r'` at its end.
proof fn lemma_without_cr_not_global(line: Seq<char>)
    requires
        !is_global_decl(line),
    ensures
        !is_global_decl(without_cr(line)),
{
    if line.len() > 0 && line.last() == '\r' {
        lemma_trim_start_drop_last(line);
        let a = trim_start(line.drop_last());
        let b = trim_start(line);
        if starts_with(a, global_prefix()) {
            assert(b.subrange(0, 7) =~= a.subrange(0, 7));
            assert(starts_with(b, global_prefix()));
        }
    }
}

/// Lua 5.5 `global` declarations do not survive preprocessing: the result
/// has as many lines as the source, none of them a `global` declaration,
/// and every other line of the source is kept (without a `'\r'` at its end).
pub proof fn lemma_preprocess_strips_globals(source: Seq<char>)
    ensures
        lines(spec_preprocess(source)).len() == lines(source).len(),
        forall|i: int|
            0 <= i < lines(spec_preprocess(source)).len() ==> !is_global_decl(
                #[trigger] lines(spec_preprocess(source))[i],
            ),
        forall|i: int|
            0 <= i < lines(source).len() && !is_global_decl(lines(source)[i]) ==> #[trigger] lines(
                spec_preprocess(source),
            )[i] == without_cr(lines(source)[i]),
{
    let ls = lines(source);
    lemma_lines_have_no_newline(source);
    lemma_preprocess_upto_lines(ls, ls.len() as int);
    assert forall|i: int| 0 <= i < lines(spec_preprocess(source)).len() implies !is_global_decl(
        #[trigger] lines(spec_preprocess(source))[i],
    ) by {
        let kept = kept_line(ls[i]);
        assert(lines(spec_preprocess(source))[i] == without_cr(kept));
        if is_global_decl(ls[i]) {
            assert(without_cr(kept) =~= Seq::<char>::empty());
            assert(trim_start(Seq::<char>::empty()) == Seq::<char>::empty());
        } else {
            lemma_without_cr_not_global(ls[i]);
        }
    }
}

proof fn lemma_preprocess_upto_same(ls: Seq<Seq<char>>, ms: Seq<Seq<char>>, k: int)
    requires
        0 <= k <= ls.len(),
        ms.len() == ls.len(),
        forall|i: int| 0 <= i < ls.len() ==> kept_line(#[trigger] ms[i]) == kept_line(ls[i]),
    ensures
        preprocess_upto(ms, k) == preprocess_upto(ls, k),
    decreases k,
{
    if k > 0 {
        lemma_preprocess_upto_same(ls, ms, k - 1);
        assert(kept_line(ms[k - 1]) == kept_line(ls[k - 1]));
    }
}

/// Preprocessing a preprocessed source changes nothing, when no line of the
/// source ends with a carriage return (which the first pass drops).
pub proof fn lemma_preprocess_idempotent(source: Seq<char>)
    requires
        forall|i: int| 0 <= i < lines(source).len() ==> !(#[trigger] lines(source)[i].len() > 0 && lines(
            source,
        )[i].last() == '\r'),
    ensures
        spec_preprocess(spec_preprocess(source)) == spec_preprocess(source),
{
    let ls = lines(source);
    let n = ls.len() as int;
    lemma_lines_have_no_newline(source);
    lemma_preprocess_upto_lines(ls, n);
    let p = spec_preprocess(source);
    let ms = lines(p);
    assert(ms.len() == ls.len());
    assert forall|i: int| 0 <= i < ls.len() implies kept_line(#[trigger] ms[i]) == kept_line(ls[i]) by {
        assert(ms[i] == without_cr(kept_line(ls[i])));
        assert(!(ls[i].len() > 0 && ls[i].last() == '\r'));
        if is_global_decl(ls[i]) {
            assert(ms[i] =~= Seq::<char>::empty());
            assert(trim_start(Seq::<char>::empty()) == Seq::<char>::empty());
        } else {
            assert(ms[i] == ls[i]);
        }
    }
    lemma_preprocess_upto_same(ls, ms, n);
}

/// Whether some line of `source` is a Lua 5.5 `global` declaration.
pub open spec fn spec_has_global_decl(source: Seq<char>) -> bool {
    exists|i: int| 0 <= i < lines(source).len() && is_global_decl(#[trigger] lines(source)[i])
}

/// Whether some line of `source` is a Lua 5.5 `global` declaration.
pub fn has_global_decl(source: &str) -> (b: bool)
    ensures
        b == spec_has_global_decl(source@),
{
    let s = str_chars(source);
    let ls = split_lines(&s);
    let prefix: Vec<char> = vec!['g', 'l', 'o', 'b', 'a', 'l', ' '];
    assert(prefix@ == global_prefix());
    let mut k: usize = 0;
    while k < ls.len()
        invariant
            k <= ls@.len(),
            s@ == source@,
            prefix@ == global_prefix(),
            ls@.len() == lines(s@).len(),
            forall|m: int| 0 <= m < ls@.len() ==> #[trigger] ls@[m]@ == lines(s@)[m],
            forall|m: int| 0 <= m < k ==> !is_global_decl(#[trigger] lines(s@)[m]),
        decreases ls@.len() - k,
    {
        if trimmed_starts_with(&ls[k], &prefix) {
            assert(is_global_decl(lines(s@)[k as int]));
            return true;
        }
        k = k + 1;
    }
    false
}

/// Removes Lua 5.5 `global` declarations: each line whose text, after leading
/// whitespace, starts with `global ` is emptied. Every line is ended by `'\n'`.
pub fn preprocess(source: &str) -> (r: String)
    ensures
        r@ == spec_preprocess(source@),
{
    let s = str_chars(source);
    let ls = split_lines(&s);
    let prefix: Vec<char> = vec!['g', 'l', 'o', 'b', 'a', 'l', ' '];
    assert(prefix@ == global_prefix());
    let mut out: Vec<char> = Vec::new();
    let mut k: usize = 0;
    while k < ls.len()
        invariant
            k <= ls@.len(),
            prefix@ == global_prefix(),
            ls@.len() == lines(s@).len(),
            forall|m: int| 0 <= m < ls@.len() ==> #[trigger] ls@[m]@ == lines(s@)[m],
            out@ == preprocess_upto(lines(s@), k as int),
        decreases ls@.len() - k,
    {
        if !trimmed_starts_with(&ls[k], &prefix) {
            push_chars(&mut out, &ls[k]);
        }
        out.push('\n');
        k = k + 1;
    }
    chars_to_string(&out)
}

} // verus!
