//! Character-level text helpers shared by the source transformations.
//!
//! Text is handled as `Vec<char>` in verified code; a `String` is read into
//! characters once and written back once.
use vstd::prelude::*;

verus! {

/// Whether `c` has the Unicode `White_Space` property: tab, line feed,
/// vertical tab, form feed, carriage return, space, U+0085, U+00A0, U+1680,
/// U+2000 to U+200A, U+2028, U+2029, U+202F, U+205F and U+3000.
pub open spec fn is_whitespace_char(c: char) -> bool {
    let n = c as u32;
    ||| 0x09 <= n <= 0x0d
    ||| n == 0x20
    ||| n == 0x85
    ||| n == 0xa0
    ||| n == 0x1680
    ||| 0x2000 <= n <= 0x200a
    ||| n == 0x2028
    ||| n == 0x2029
    ||| n == 0x202f
    ||| n == 0x205f
    ||| n == 0x3000
}

/// Whether `c` has the Unicode `White_Space` property, as `char::is_whitespace`
/// decides: the code points that [`is_whitespace_char`] lists.
pub(crate) fn char_is_whitespace(c: char) -> (b: bool)
    ensures
        b == is_whitespace_char(c),
{
    let n = c as u32;
    (0x09 <= n && n <= 0x0d) || n == 0x20 || n == 0x85 || n == 0xa0 || n == 0x1680 || (0x2000 <= n && n <= 0x200a)
        || n == 0x2028 || n == 0x2029 || n == 0x202f || n == 0x205f || n == 0x3000
}

/// `str::chars` collected into a vector: the characters of `s`, in order.
#[verifier::external_body]
pub(crate) fn str_chars(s: &str) -> (v: Vec<char>)
    ensures
        v@ == s@,
{
    s.chars().collect()
}

/// `String: FromIterator<char>`: the string made of the characters of `v`.
#[verifier::external_body]
pub(crate) fn chars_to_string(v: &Vec<char>) -> (s: String)
    ensures
        s@ == v@,
{
    v.iter().collect()
}

/// Appends all of `src` to `out`.
pub fn push_chars(out: &mut Vec<char>, src: &Vec<char>)
    ensures
        final(out)@ == old(out)@ + src@,
{
    let mut i: usize = 0;
    while i < src.len()
        invariant
            i <= src@.len(),
            out@ == old(out)@ + src@.subrange(0, i as int),
        decreases src@.len() - i,
    {
        out.push(src[i]);
        i = i + 1;
        assert(src@.subrange(0, i as int) == src@.subrange(0, i - 1 as int).push(src@[i - 1]));
    }
    assert(src@.subrange(0, src@.len() as int) == src@);
}

/// Appends the characters of `s` to `out`.
pub fn push_str(out: &mut Vec<char>, s: &str)
    ensures
        final(out)@ == old(out)@ + s@,
{
    let v = str_chars(s);
    push_chars(out, &v);
}

/// Number of occurrences of `c` in `s`.
pub open spec fn count_char(s: Seq<char>, c: char) -> nat
    decreases s.len(),
{
    if s.len() == 0 {
        0
    } else {
        count_char(s.drop_last(), c) + if s.last() == c { 1nat } else { 0nat }
    }
}

/// Counting over a concatenation adds up.
pub proof fn lemma_count_char_concat(a: Seq<char>, b: Seq<char>, c: char)
    ensures
        count_char(a + b, c) == count_char(a, c) + count_char(b, c),
    decreases b.len(),
{
    if b.len() == 0 {
        assert(a + b == a);
    } else {
        lemma_count_char_concat(a, b.drop_last(), c);
        assert((a + b).drop_last() == a + b.drop_last());
    }
}

/// A sequence never holds more occurrences of a character than it is long.
pub proof fn lemma_count_char_le_len(s: Seq<char>, c: char)
    ensures
        count_char(s, c) <= s.len(),
    decreases s.len(),
{
    if s.len() > 0 {
        lemma_count_char_le_len(s.drop_last(), c);
    }
}

/// Index of the first `'\n'` at or after `i`, or `s.len()` when there is none.
pub open spec fn newline_from(s: Seq<char>, i: int) -> int
    decreases s.len() - i,
{
    if i >= s.len() {
        s.len() as int
    } else if s[i] == '\n' {
        i
    } else {
        newline_from(s, i + 1)
    }
}

pub proof fn lemma_newline_from_bounds(s: Seq<char>, i: int)
    requires
        0 <= i,
    ensures
        i <= s.len() ==> i <= newline_from(s, i) <= s.len(),
        i > s.len() ==> newline_from(s, i) == s.len(),
        newline_from(s, i) < s.len() ==> s[newline_from(s, i)] == '\n',
        forall|k: int| i <= k < newline_from(s, i) ==> s[k] != '\n',
    decreases s.len() - i,
{
    if i < s.len() && s[i] != '\n' {
        lemma_newline_from_bounds(s, i + 1);
    }
}

/// The lines of `s` from position `i` on, as `str::lines` yields them: split at
/// `'\n'`, a `'\r'` directly before a `'\n'` dropped, no empty line after a final
/// line ending.
pub open spec fn lines_from(s: Seq<char>, i: int) -> Seq<Seq<char>>
    decreases s.len() + 1 - i,
{
    if i < 0 || i >= s.len() {
        Seq::empty()
    } else {
        proof {
            lemma_newline_from_bounds(s, i);
        }
        let e = newline_from(s, i);
        let line = if e < s.len() && e > i && s[e - 1] == '\r' {
            s.subrange(i, e - 1)
        } else {
            s.subrange(i, e)
        };
        seq![line] + lines_from(s, e + 1)
    }
}

/// The lines of `s`, as `str::lines` yields them.
pub open spec fn lines(s: Seq<char>) -> Seq<Seq<char>> {
    lines_from(s, 0)
}

/// Splits `s` into its lines, as `str::lines` does.
pub fn split_lines(s: &Vec<char>) -> (ls: Vec<Vec<char>>)
    ensures
        ls@.len() == lines(s@).len(),
        forall|k: int| 0 <= k < ls@.len() ==> #[trigger] ls@[k]@ == lines(s@)[k],
{
    let mut ls: Vec<Vec<char>> = Vec::new();
    let mut i: usize = 0;
    let ghost all = lines(s@);
    assert(all == lines_from(s@, 0));
    while i < s.len()
        invariant
            i <= s@.len(),
            ls@.len() + lines_from(s@, i as int).len() == all.len(),
            forall|k: int| 0 <= k < ls@.len() ==> #[trigger] ls@[k]@ == all[k],
            forall|k: int| 0 <= k < lines_from(s@, i as int).len() ==>
                #[trigger] lines_from(s@, i as int)[k] == all[ls@.len() + k],
        decreases s@.len() - i,
    {
        let start = i;
        let mut line: Vec<char> = Vec::new();
        proof {
            lemma_newline_from_bounds(s@, start as int);
        }
        while i < s.len() && s[i] != '\n'
            invariant
                start <= i <= s@.len(),
                newline_from(s@, start as int) == newline_from(s@, i as int),
                line@ == s@.subrange(start as int, i as int),
            decreases s@.len() - i,
        {
            line.push(s[i]);
            i = i + 1;
            assert(line@ == s@.subrange(start as int, i as int));
        }
        let ghost e = i as int;
        assert(newline_from(s@, e) == e);
        if i < s.len() && i > start && s[i - 1] == '\r' {
            line.pop();
            assert(line@ == s@.subrange(start as int, e - 1));
        }
        proof {
            let rest = lines_from(s@, e + 1);
            assert(lines_from(s@, start as int) == seq![line@] + rest);
            assert(lines_from(s@, start as int)[0] == line@);
            assert forall|k: int| 0 <= k < rest.len() implies #[trigger] rest[k] == all[
                ls@.len() + 1 + k] by {
                assert(lines_from(s@, start as int)[k + 1] == rest[k]);
            }
        }
        ls.push(line);
        if i < s.len() {
            i = i + 1;
        }
        proof {
            if e >= s@.len() {
                assert(lines_from(s@, i as int) == Seq::<Seq<char>>::empty());
            }
        }
    }
    ls
}

/// `s` without trailing whitespace, as `str::trim_end` gives it.
pub open spec fn trim_end(s: Seq<char>) -> Seq<char>
    decreases s.len(),
{
    if s.len() > 0 && is_whitespace_char(s.last()) {
        trim_end(s.drop_last())
    } else {
        s
    }
}

/// `s` without leading whitespace, as `str::trim_start` gives it.
pub open spec fn trim_start(s: Seq<char>) -> Seq<char>
    decreases s.len(),
{
    if s.len() > 0 && is_whitespace_char(s[0]) {
        trim_start(s.drop_first())
    } else {
        s
    }
}

/// Number of trailing whitespace characters of `s`.
pub open spec fn trailing_ws(s: Seq<char>) -> nat
    decreases s.len(),
{
    if s.len() > 0 && is_whitespace_char(s.last()) {
        trailing_ws(s.drop_last()) + 1
    } else {
        0
    }
}

pub proof fn lemma_trim_end_prefix(s: Seq<char>)
    ensures
        trailing_ws(s) <= s.len(),
        trim_end(s) == s.subrange(0, s.len() - trailing_ws(s)),
    decreases s.len(),
{
    if s.len() > 0 && is_whitespace_char(s.last()) {
        lemma_trim_end_prefix(s.drop_last());
        assert(s.drop_last().subrange(0, s.drop_last().len() - trailing_ws(s.drop_last()))
            == s.subrange(0, s.len() - trailing_ws(s)));
    } else {
        assert(s.subrange(0, s.len() as int) == s);
    }
}

/// `str::trim_end` on a character vector.
pub fn trim_end_chars(s: &Vec<char>) -> (r: Vec<char>)
    ensures
        r@ == trim_end(s@),
{
    let mut n: usize = s.len();
    assert(s@.subrange(0, n as int) == s@);
    while n > 0 && char_is_whitespace(s[n - 1])
        invariant
            n <= s@.len(),
            trim_end(s@) == trim_end(s@.subrange(0, n as int)),
        decreases n,
    {
        assert(s@.subrange(0, n as int).drop_last() == s@.subrange(0, n - 1 as int));
        n = n - 1;
    }
    let mut r: Vec<char> = Vec::new();
    let mut i: usize = 0;
    while i < n
        invariant
            i <= n <= s@.len(),
            r@ == s@.subrange(0, i as int),
        decreases n - i,
    {
        r.push(s[i]);
        i = i + 1;
        assert(r@ == s@.subrange(0, i as int));
    }
    proof {
        let p = s@.subrange(0, n as int);
        assert(r@ == p);
        if n > 0 {
            assert(!is_whitespace_char(p.last()));
        }
        assert(trim_end(p) == p);
    }
    r
}

/// Whether `s` starts with `prefix`.
pub open spec fn starts_with(s: Seq<char>, prefix: Seq<char>) -> bool {
    prefix.len() <= s.len() && s.subrange(0, prefix.len() as int) == prefix
}

/// Whether `trim_start(s)` starts with `prefix`, computed on the characters.
pub fn trimmed_starts_with(s: &Vec<char>, prefix: &Vec<char>) -> (b: bool)
    ensures
        b == starts_with(trim_start(s@), prefix@),
{
    let mut k: usize = 0;
    assert(s@.subrange(0, s@.len() as int) == s@);
    while k < s.len() && char_is_whitespace(s[k])
        invariant
            k <= s@.len(),
            trim_start(s@) == trim_start(s@.subrange(k as int, s@.len() as int)),
        decreases s@.len() - k,
    {
        assert(s@.subrange(k as int, s@.len() as int).drop_first() == s@.subrange(
            k + 1 as int,
            s@.len() as int,
        ));
        k = k + 1;
    }
    let ghost t = s@.subrange(k as int, s@.len() as int);
    assert(t.len() > 0 ==> !is_whitespace_char(t[0]));
    assert(trim_start(t) == t);
    let slen = s.len();
    if slen - k < prefix.len() {
        return false;
    }
    let mut j: usize = 0;
    while j < prefix.len()
        invariant
            j <= prefix@.len(),
            slen == s@.len(),
            k + prefix@.len() <= slen,
            trim_start(s@) == t,
            t == s@.subrange(k as int, s@.len() as int),
            forall|m: int| 0 <= m < j ==> t[m] == prefix@[m],
        decreases prefix@.len() - j,
    {
        if s[k + j] != prefix[j] {
            assert(t[j as int] == s@[k + j]);
            assert(t.subrange(0, prefix@.len() as int)[j as int] != prefix@[j as int]);
            return false;
        }
        j = j + 1;
    }
    assert(t.subrange(0, prefix@.len() as int) == prefix@);
    true
}

} // verus!

verus! {

/// The lowercase form of `s`, as `str::to_lowercase` computes it.
pub uninterp spec fn lowercase(s: Seq<char>) -> Seq<char>;

/// `str::to_lowercase`: the lowercase equivalent of `s`, a function of `s` alone.
#[verifier::external_body]
pub(crate) fn to_lowercase(s: &str) -> (r: String)
    ensures
        r@ == lowercase(s@),
{
    s.to_lowercase()
}

/// Whether `s` is non-empty and ends with `'\n'`, as `str::ends_with('\n')` decides.
pub open spec fn ends_with_newline(s: Seq<char>) -> bool {
    s.len() > 0 && s.last() == '\n'
}

/// `s`, followed by `'\n'` unless it already ends with one.
pub open spec fn with_final_newline(s: Seq<char>) -> Seq<char> {
    if ends_with_newline(s) {
        s
    } else {
        s.push('\n')
    }
}

/// Whether `s` ends with `'\n'`.
pub fn str_ends_with_newline(s: &str) -> (b: bool)
    ensures
        b == ends_with_newline(s@),
{
    let v = str_chars(s);
    v.len() > 0 && v[v.len() - 1] == '\n'
}

/// Number of `'\n'` in `s`, truncated to 32 bits.
pub fn count_lines(s: &str) -> (r: u32)
    ensures
        r == count_char(s@, '\n') as u32,
{
    let v = str_chars(s);
    let mut n: usize = 0;
    let mut i: usize = 0;
    while i < v.len()
        invariant
            i <= v@.len(),
            n <= i,
            n == count_char(v@.subrange(0, i as int), '\n'),
        decreases v@.len() - i,
    {
        assert(v@.subrange(0, i + 1 as int).drop_last() == v@.subrange(0, i as int));
        if v[i] == '\n' {
            n = n + 1;
        }
        i = i + 1;
    }
    assert(v@.subrange(0, v@.len() as int) == v@);
    n as u32
}

/// No line of `s` holds a line ending.
pub proof fn lemma_lines_have_no_newline(s: Seq<char>)
    ensures
        forall|i: int, j: int|
            0 <= i < lines(s).len() && 0 <= j < lines(s)[i].len() ==> #[trigger] lines(s)[i][j] != '\n',
{
    lemma_lines_from_no_newline(s, 0);
}

proof fn lemma_lines_from_no_newline(s: Seq<char>, i: int)
    requires
        0 <= i,
    ensures
        forall|a: int, j: int|
            0 <= a < lines_from(s, i).len() && 0 <= j < lines_from(s, i)[a].len() ==> #[trigger] lines_from(
                s,
                i,
            )[a][j] != '\n',
    decreases s.len() + 1 - i,
{
    if i < s.len() {
        lemma_newline_from_bounds(s, i);
        let e = newline_from(s, i);
        lemma_lines_from_no_newline(s, e + 1);
        let ls = lines_from(s, i);
        assert forall|a: int, j: int| 0 <= a < ls.len() && 0 <= j < ls[a].len() implies #[trigger] ls[a][j] != '\n' by {
            if a > 0 {
                assert(ls[a] == lines_from(s, e + 1)[a - 1]);
            } else {
                assert(ls[0][j] == s[i + j]);
            }
        }
    }
}

/// `line` without a `'\r'` at its end, as `str::lines` gives a line ended by `"\r\n"`.
pub open spec fn without_cr(line: Seq<char>) -> Seq<char> {
    if line.len() > 0 && line.last() == '\r' {
        line.drop_last()
    } else {
        line
    }
}

proof fn lemma_newline_from_prefix(a: Seq<char>, t: Seq<char>, i: int)
    requires
        0 <= i < a.len(),
        a.last() == '\n',
    ensures
        newline_from(a + t, i) == newline_from(a, i),
        newline_from(a, i) < a.len(),
    decreases a.len() - i,
{
    let s = a + t;
    assert(s[i] == a[i]);
    if a[i] != '\n' {
        if i + 1 < a.len() {
            lemma_newline_from_prefix(a, t, i + 1);
        } else {
            assert(a[i] == a.last());
        }
    }
}

/// Splitting a text that ends with a line ending, followed by more text,
/// gives the lines of the first part, then those of the rest.
proof fn lemma_lines_from_concat(a: Seq<char>, t: Seq<char>, i: int)
    requires
        0 <= i <= a.len(),
        a.len() == 0 || a.last() == '\n',
    ensures
        lines_from(a + t, i) == lines_from(a, i) + lines_from(a + t, a.len() as int),
    decreases a.len() - i,
{
    let s = a + t;
    if i == a.len() {
        assert(lines_from(a, i) =~= Seq::<Seq<char>>::empty());
        assert(lines_from(s, i) =~= lines_from(a, i) + lines_from(s, a.len() as int));
    } else {
        lemma_newline_from_prefix(a, t, i);
        lemma_newline_from_bounds(a, i);
        lemma_newline_from_bounds(s, i);
        let e = newline_from(a, i);
        lemma_lines_from_concat(a, t, e + 1);
        assert(s.subrange(i, e) =~= a.subrange(i, e));
        if e > i {
            assert(s.subrange(i, e - 1) =~= a.subrange(i, e - 1));
            assert(s[e - 1] == a[e - 1]);
        }
        assert(lines_from(s, i) =~= lines_from(a, i) + lines_from(s, a.len() as int));
    }
}

/// Appending a line without line endings, and a line ending, adds one line
/// (without a `'\r'` at its end).
pub proof fn lemma_lines_push_line(a: Seq<char>, l: Seq<char>)
    requires
        a.len() == 0 || a.last() == '\n',
        forall|j: int| 0 <= j < l.len() ==> l[j] != '\n',
    ensures
        lines(a + l.push('\n')) == lines(a).push(without_cr(l)),
{
    let t = l.push('\n');
    let s = a + t;
    lemma_lines_from_concat(a, t, 0);
    let n = a.len() as int;
    // the last line
    assert forall|k: int| n <= k < n + l.len() implies s[k] != '\n' by {
        assert(s[k] == l[k - n]);
    }
    assert(s[n + l.len()] == '\n');
    lemma_newline_from_bounds(s, n);
    let e = newline_from(s, n);
    if e < n + l.len() {
        assert(s[e] != '\n');
    }
    assert(e == n + l.len());
    assert(lines_from(s, e + 1) =~= Seq::<Seq<char>>::empty());
    if l.len() > 0 {
        assert(s[e - 1] == l.last());
        assert(s.subrange(n, e - 1) =~= l.drop_last());
    }
    assert(s.subrange(n, e) =~= l);
    assert(lines_from(s, n) =~= seq![without_cr(l)]);
    assert(lines(a + l.push('\n')) =~= lines(a).push(without_cr(l)));
}

/// Trimming the start of a text without its last character gives a prefix
/// of trimming the start of the whole text.
pub proof fn lemma_trim_start_drop_last(x: Seq<char>)
    requires
        x.len() > 0,
    ensures
        trim_start(x.drop_last()).len() <= trim_start(x).len(),
        trim_start(x).subrange(0, trim_start(x.drop_last()).len() as int) == trim_start(x.drop_last()),
    decreases x.len(),
{
    let y = x.drop_last();
    if x.len() == 1 {
        assert(y.len() == 0);
        assert(trim_start(y) == y);
        assert(trim_start(x).subrange(0, 0) =~= y);
    } else if is_whitespace_char(x[0]) {
        assert(y[0] == x[0]);
        assert(y.drop_first() =~= x.drop_first().drop_last());
        lemma_trim_start_drop_last(x.drop_first());
    } else {
        assert(y[0] == x[0]);
        assert(trim_start(x) == x);
        assert(trim_start(y) == y);
        assert(x.subrange(0, y.len() as int) =~= y);
    }
}

/// Counting over `s[a..c]` adds up the counts over `s[a..b]` and `s[b..c]`.
pub proof fn lemma_count_char_split(s: Seq<char>, a: int, b: int, c: int, ch: char)
    requires
        0 <= a <= b <= c <= s.len(),
    ensures
        count_char(s.subrange(a, c), ch) == count_char(s.subrange(a, b), ch) + count_char(s.subrange(b, c), ch),
{
    assert(s.subrange(a, c) == s.subrange(a, b) + s.subrange(b, c));
    lemma_count_char_concat(s.subrange(a, b), s.subrange(b, c), ch);
}

/// A one-character sequence counts one occurrence of its character.
pub proof fn lemma_count_char_single(x: char, ch: char)
    ensures
        count_char(seq![x], ch) == (if x == ch { 1nat } else { 0nat }),
{
    let one = seq![x];
    assert(one.len() == 1);
    assert(one.last() == x);
    assert(one.drop_last() =~= Seq::<char>::empty());
    assert(count_char(Seq::<char>::empty(), ch) == 0);
}

/// The number of lines of `s` is its number of line endings, plus one for a
/// last line without a final line ending.
pub proof fn lemma_lines_count(s: Seq<char>)
    ensures
        lines(s).len() == count_char(s, '\n') + if s.len() > 0 && s.last() != '\n' {
            1nat
        } else {
            0nat
        },
{
    lemma_lines_from_count(s, 0);
    assert(s.subrange(0, s.len() as int) == s);
}

proof fn lemma_lines_from_count(s: Seq<char>, i: int)
    requires
        0 <= i <= s.len(),
    ensures
        lines_from(s, i).len() == count_char(s.subrange(i, s.len() as int), '\n') + if i
            < s.len() && s.last() != '\n' {
            1nat
        } else {
            0nat
        },
    decreases s.len() - i,
{
    if i < s.len() {
        lemma_newline_from_bounds(s, i);
        let e = newline_from(s, i);
        let tail = s.subrange(i, s.len() as int);
        let before = s.subrange(i, e);
        lemma_count_none(before);
        assert(lines_from(s, i).len() == 1 + lines_from(s, e + 1).len());
        if e < s.len() {
            lemma_lines_from_count(s, e + 1);
            let after = s.subrange(e + 1, s.len() as int);
            assert(tail == before + seq!['\n'] + after);
            lemma_count_char_concat(before + seq!['\n'], after, '\n');
            lemma_count_char_concat(before, seq!['\n'], '\n');
            let one = seq!['\n'];
            assert(one.len() == 1);
            assert(one.last() == '\n');
            assert(one.drop_last() =~= Seq::<char>::empty());
            assert(count_char(Seq::<char>::empty(), '\n') == 0);
            assert(count_char(one, '\n') == 1);
            if e + 1 == s.len() {
                assert(s.last() == '\n');
                assert(after.len() == 0);
            }
        } else {
            assert(before == tail);
            assert(lines_from(s, e + 1).len() == 0);
            assert(s.last() == tail[tail.len() - 1]);
            assert(s.last() != '\n');
        }
    }
}

/// A sequence without line endings counts none.
pub proof fn lemma_count_none(s: Seq<char>)
    requires
        forall|k: int| 0 <= k < s.len() ==> s[k] != '\n',
    ensures
        count_char(s, '\n') == 0,
    decreases s.len(),
{
    if s.len() > 0 {
        lemma_count_none(s.drop_last());
    }
}

} // verus!

verus! {

/// `s` without leading and trailing whitespace, as `str::trim` gives it.
pub open spec fn trim(s: Seq<char>) -> Seq<char> {
    trim_start(trim_end(s))
}

/// `str::trim_start` on a character vector.
pub fn trim_start_chars(s: &Vec<char>) -> (r: Vec<char>)
    ensures
        r@ == trim_start(s@),
{
    let mut k: usize = 0;
    assert(s@.subrange(0, s@.len() as int) == s@);
    while k < s.len() && char_is_whitespace(s[k])
        invariant
            k <= s@.len(),
            trim_start(s@) == trim_start(s@.subrange(k as int, s@.len() as int)),
        decreases s@.len() - k,
    {
        assert(s@.subrange(k as int, s@.len() as int).drop_first() == s@.subrange(
            k + 1 as int,
            s@.len() as int,
        ));
        k = k + 1;
    }
    let ghost t = s@.subrange(k as int, s@.len() as int);
    assert(t.len() > 0 ==> !is_whitespace_char(t[0]));
    assert(trim_start(t) == t);
    let mut r: Vec<char> = Vec::new();
    let mut i: usize = k;
    while i < s.len()
        invariant
            k <= i <= s@.len(),
            r@ == s@.subrange(k as int, i as int),
        decreases s@.len() - i,
    {
        r.push(s[i]);
        i = i + 1;
        assert(r@ == s@.subrange(k as int, i as int));
    }
    r
}

/// `str::trim` on a string, as characters.
pub fn trim_chars(s: &str) -> (r: Vec<char>)
    ensures
        r@ == trim(s@),
{
    let v = str_chars(s);
    let e = trim_end_chars(&v);
    trim_start_chars(&e)
}

/// Whether the characters `v` spell `s`.
pub fn chars_eq_str(v: &Vec<char>, s: &str) -> (b: bool)
    ensures
        b == (v@ == s@),
{
    let w = str_chars(s);
    if v.len() != w.len() {
        return false;
    }
    let mut i: usize = 0;
    while i < v.len()
        invariant
            v@.len() == w@.len(),
            w@ == s@,
            i <= v@.len(),
            forall|k: int| 0 <= k < i ==> v@[k] == w@[k],
        decreases v@.len() - i,
    {
        if v[i] != w[i] {
            return false;
        }
        i = i + 1;
    }
    assert(v@ == w@);
    true
}

/// Whether two character vectors are equal.
pub fn chars_eq(v: &Vec<char>, w: &Vec<char>) -> (b: bool)
    ensures
        b == (v@ == w@),
{
    if v.len() != w.len() {
        return false;
    }
    let mut i: usize = 0;
    while i < v.len()
        invariant
            v@.len() == w@.len(),
            i <= v@.len(),
            forall|k: int| 0 <= k < i ==> v@[k] == w@[k],
        decreases v@.len() - i,
    {
        if v[i] != w[i] {
            return false;
        }
        i = i + 1;
    }
    assert(v@ == w@);
    true
}

} // verus!

verus! {

/// The decimal digits of `n`, most significant first, as `Display` writes an
/// unsigned integer.
pub open spec fn decimal(n: nat) -> Seq<char>
    decreases n,
{
    if n < 10 {
        seq![(('0' as int) + n) as char]
    } else {
        decimal(n / 10).push((('0' as int) + (n % 10)) as char)
    }
}

/// The decimal digit for `d` in `0..10`.
fn digit_char(d: usize) -> (c: char)
    requires
        d < 10,
    ensures
        c == (('0' as int) + d) as char,
{
    ((48 + d) as u8) as char
}

/// Appends the decimal form of `n`.
pub fn push_decimal(out: &mut Vec<char>, n: usize)
    ensures
        final(out)@ == old(out)@ + decimal(n as nat),
    decreases n,
{
    if n < 10 {
        out.push(digit_char(n));
    } else {
        push_decimal(out, n / 10);
        out.push(digit_char(n % 10));
    }
}

} // verus!

verus! {

/// Number of `'\n'` in `s`.
pub fn count_newlines(s: &str) -> (r: usize)
    ensures
        r == count_char(s@, '\n'),
{
    let v = str_chars(s);
    let mut n: usize = 0;
    let mut i: usize = 0;
    while i < v.len()
        invariant
            i <= v@.len(),
            n <= i,
            n == count_char(v@.subrange(0, i as int), '\n'),
        decreases v@.len() - i,
    {
        assert(v@.subrange(0, i + 1 as int).drop_last() == v@.subrange(0, i as int));
        if v[i] == '\n' {
            n = n + 1;
        }
        i = i + 1;
    }
    assert(v@.subrange(0, v@.len() as int) == v@);
    n
}

/// Number of lines of `s`, as `str::lines` counts them.
pub fn line_count(s: &str) -> (r: usize)
    ensures
        r == lines(s@).len(),
{
    proof {
        lemma_lines_count(s@);
    }
    let n = count_newlines(s);
    let v = str_chars(s);
    proof {
        lemma_count_char_le_len(s@, '\n');
    }
    if v.len() > 0 && v[v.len() - 1] != '\n' {
        proof {
            lemma_count_char_le_len(s@.drop_last(), '\n');
        }
        assert(n < v@.len());
        n + 1
    } else {
        n
    }
}

} // verus!
