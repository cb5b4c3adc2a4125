//! Source map (v3) construction: tracks output line -> source file + line.
use vstd::prelude::*;

use crate::luarocks::split_on;

use crate::text::{
    chars_to_string, count_char, lemma_count_char_concat, lemma_count_char_single, push_chars,
    push_str, str_chars,
};

verus! {

/// The lower-case hexadecimal digit for `d` in `0..16`.
pub open spec fn hex_digit(d: int) -> char {
    if d < 10 {
        ('0' as int + d) as char
    } else {
        ('a' as int + (d - 10)) as char
    }
}

/// How a JSON string literal writes `c`: `"` and `\` behind a backslash,
/// backspace, tab, line feed, form feed and carriage return as `\b`, `\t`,
/// `\n`, `\f`, `\r`, other control characters below U+0020 as `\u00` and
/// two lower-case hex digits, and every other character as itself.
pub open spec fn json_escape_char(c: char) -> Seq<char> {
    let n = c as u32;
    if c == '"' {
        seq!['\\', '"']
    } else if c == '\\' {
        seq!['\\', '\\']
    } else if n == 0x08 {
        seq!['\\', 'b']
    } else if n == 0x09 {
        seq!['\\', 't']
    } else if n == 0x0a {
        seq!['\\', 'n']
    } else if n == 0x0c {
        seq!['\\', 'f']
    } else if n == 0x0d {
        seq!['\\', 'r']
    } else if n < 0x20 {
        seq!['\\', 'u', '0', '0', hex_digit(n as int / 16), hex_digit(n as int % 16)]
    } else {
        seq![c]
    }
}

/// The characters of `s`, each written as a JSON string literal writes it.
pub open spec fn json_escaped(s: Seq<char>) -> Seq<char>
    decreases s.len(),
{
    if s.len() == 0 {
        Seq::empty()
    } else {
        json_escaped(s.drop_last()) + json_escape_char(s.last())
    }
}

/// The JSON string literal that `serde_json::to_string` writes for `s`: `s`
/// escaped, between double quotes.
pub open spec fn json_string(s: Seq<char>) -> Seq<char> {
    seq!['"'] + json_escaped(s) + seq!['"']
}

/// `serde_json::to_string` on a string: its JSON string literal, quoted and
/// escaped as [`json_escape_char`] says (serde_json's escape table and
/// `write_char_escape`). Serializing a `str` into memory cannot fail in
/// serde_json's source, so the result is always `Ok`.
#[verifier::external_body]
pub(crate) fn json_quote(s: &str) -> (r: String)
    ensures
        r@ == json_string(s@),
{
    serde_json::to_string(s).unwrap()
}

/// The Base64 digit for `d` in `0..64`: `A-Z`, `a-z`, `0-9`, `+`, `/`.
pub open spec fn base64_digit(d: int) -> char {
    if d < 26 {
        ('A' as int + d) as char
    } else if d < 52 {
        ('a' as int + (d - 26)) as char
    } else if d < 62 {
        ('0' as int + (d - 52)) as char
    } else if d == 62 {
        '+'
    } else {
        '/'
    }
}

/// The Base64 digits of the zigzag value `z`, least significant group of five
/// bits first, every digit but the last carrying the continuation bit (32).
pub open spec fn vlq_digits(z: nat) -> Seq<char>
    decreases z,
{
    if z / 32 > 0 {
        seq![base64_digit((z % 32) as int + 32)] + vlq_digits(z / 32)
    } else {
        seq![base64_digit(z as int)]
    }
}

/// Zigzag form of `v`: the sign moved into the lowest bit.
pub open spec fn zigzag(v: int) -> nat {
    if v >= 0 {
        (2 * v) as nat
    } else {
        (2 * (-v) + 1) as nat
    }
}

/// The Base64 VLQ encoding of `v`.
pub open spec fn vlq(v: int) -> Seq<char> {
    vlq_digits(zigzag(v))
}

/// Value of the Base64 digit `c`, or 64 when `c` is not one.
pub open spec fn digit_value(c: char) -> int {
    if 'A' <= c <= 'Z' {
        c as int - 'A' as int
    } else if 'a' <= c <= 'z' {
        c as int - 'a' as int + 26
    } else if '0' <= c <= '9' {
        c as int - '0' as int + 52
    } else if c == '+' {
        62
    } else if c == '/' {
        63
    } else {
        64
    }
}

/// The number that the Base64 VLQ digits `s` stand for, read up to the first
/// digit without a continuation bit.
pub open spec fn vlq_read(s: Seq<char>) -> nat
    decreases s.len(),
{
    if s.len() == 0 {
        0
    } else {
        let d = digit_value(s[0]);
        if 32 <= d < 64 && s.len() > 1 {
            ((d - 32) + 32 * vlq_read(s.drop_first())) as nat
        } else if 0 <= d < 32 {
            d as nat
        } else {
            0
        }
    }
}

/// The signed number that a Base64 VLQ segment stands for.
pub open spec fn vlq_decode(s: Seq<char>) -> int {
    let z = vlq_read(s);
    if z % 2 == 0 {
        (z / 2) as int
    } else {
        -((z / 2) as int)
    }
}

proof fn lemma_base64_digit(d: int)
    requires
        0 <= d < 64,
    ensures
        digit_value(base64_digit(d)) == d,
{
}

proof fn lemma_vlq_digits(z: nat)
    ensures
        vlq_digits(z).len() > 0,
        vlq_read(vlq_digits(z)) == z,
        forall|k: int| 0 <= k < vlq_digits(z).len() ==> digit_value(#[trigger] vlq_digits(z)[k]) < 64,
    decreases z,
{
    if z / 32 > 0 {
        lemma_vlq_digits(z / 32);
        lemma_base64_digit((z % 32) as int + 32);
        let s = vlq_digits(z);
        assert(s.drop_first() == vlq_digits(z / 32));
        assert forall|k: int| 0 <= k < s.len() implies digit_value(#[trigger] s[k]) < 64 by {
            if k > 0 {
                assert(s[k] == vlq_digits(z / 32)[k - 1]);
            }
        }
    } else {
        lemma_base64_digit(z as int);
    }
}

/// Base64 VLQ encoding can be read back: decoding the encoding of `v` gives `v`,
/// and the encoding is a non-empty string of Base64 digits.
pub proof fn lemma_vlq_roundtrip(v: int)
    ensures
        vlq_decode(vlq(v)) == v,
        vlq(v).len() > 0,
        forall|k: int| 0 <= k < vlq(v).len() ==> digit_value(#[trigger] vlq(v)[k]) < 64,
{
    lemma_vlq_digits(zigzag(v));
}

/// The Base64 digit for `d`.
fn base64_char(d: u32) -> (c: char)
    requires
        d < 64,
    ensures
        c == base64_digit(d as int),
{
    if d < 26 {
        ((65 + d) as u8) as char
    } else if d < 52 {
        ((97 + (d - 26)) as u8) as char
    } else if d < 62 {
        ((48 + (d - 52)) as u8) as char
    } else if d == 62 {
        '+'
    } else {
        '/'
    }
}

/// Encode a signed integer into VLQ base64.
pub fn vlq_encode(value: i32) -> (r: String)
    requires
        value > i32::MIN,
    ensures
        r@ == vlq(value as int),
        vlq_decode(r@) == value,
{
    proof {
        lemma_vlq_roundtrip(value as int);
    }
    // zigzag: move sign bit to LSB
    let mut val: u32 = if value >= 0 {
        let v: u32 = value as u32;
        assert(v << 1u32 == 2 * v) by (bit_vector)
            requires
                v <= 0x7fff_ffffu32,
        ;
        v << 1u32
    } else {
        let v: u32 = (-value) as u32;
        assert((v << 1u32) | 1u32 == 2 * v + 1) by (bit_vector)
            requires
                v <= 0x7fff_ffffu32,
        ;
        (v << 1u32) | 1u32
    };
    let ghost z: nat = zigzag(value as int);
    assert(val == z);
    let mut out: Vec<char> = Vec::new();
    loop
        invariant_except_break
            out@ + vlq_digits(val as nat) == vlq_digits(z),
        ensures
            out@ == vlq_digits(z),
        decreases val,
    {
        let ghost before = val;
        let mut digit: u32 = val & 0x1fu32;
        assert(val & 0x1fu32 == val % 32) by (bit_vector);
        assert(val >> 5u32 == val / 32) by (bit_vector);
        val = val >> 5u32;
        if val > 0 {
            assert(digit < 32 ==> digit | 0x20u32 == digit + 32) by (bit_vector);
            digit = digit | 0x20u32; // continuation bit
        }
        out.push(base64_char(digit));
        if val == 0 {
            assert(out@ == vlq_digits(z));
            break;
        }
        assert(vlq_digits(before as nat) == seq![base64_digit(digit as int)] + vlq_digits(
            val as nat,
        ));
    }
    chars_to_string(&out)
}

/// The parts joined, `sep` between each two.
pub open spec fn join(parts: Seq<Seq<char>>, sep: Seq<char>) -> Seq<char>
    decreases parts.len(),
{
    if parts.len() == 0 {
        Seq::empty()
    } else if parts.len() == 1 {
        parts[0]
    } else {
        join(parts.drop_last(), sep) + sep + parts.last()
    }
}

/// Joining one more part appends the separator and the part.
pub proof fn lemma_join_push(parts: Seq<Seq<char>>, x: Seq<char>, sep: Seq<char>)
    ensures
        join(parts.push(x), sep) == if parts.len() == 0 {
            x
        } else {
            join(parts, sep) + sep + x
        },
{
    assert(parts.push(x).drop_last() == parts);
    assert(parts.push(x).last() == x);
}

/// Appends the JSON string literals of `items`, separated by commas.
fn push_json_list(out: &mut Vec<char>, items: &Vec<String>)
    ensures
        final(out)@ == old(out)@ + json_string_list(items@.map_values(|x: String| x@)),
{
    let ghost all = items@.map_values(|x: String| x@).map_values(|x: Seq<char>| json_string(x));
    let mut body: Vec<char> = Vec::new();
    let mut k: usize = 0;
    while k < items.len()
        invariant
            k <= items@.len(),
            all == items@.map_values(|x: String| x@).map_values(|x: Seq<char>| json_string(x)),
            body@ == join(all.take(k as int), seq![',']),
        decreases items@.len() - k,
    {
        proof {
            lemma_join_push(all.take(k as int), all[k as int], seq![',']);
            assert(all.take(k as int).push(all[k as int]) == all.take(k + 1 as int));
        }
        if k > 0 {
            body.push(',');
        }
        let q = json_quote(items[k].as_str());
        push_str(&mut body, q.as_str());
        k = k + 1;
    }
    assert(all.take(items@.len() as int) == all);
    push_chars(out, &body);
}

/// The source position recorded before output line `k`, for relative encoding:
/// that of the last mapped line before `k`, or the origin when there is none.
pub open spec fn prev_position(m: Seq<Option<(usize, u32)>>, k: int) -> (int, int)
    decreases k,
{
    if k <= 0 {
        (0, 0)
    } else {
        match m[k - 1] {
            Some((src, line)) => (src as int, line as int),
            None => prev_position(m, k - 1),
        }
    }
}

/// The mappings segment of output line `k`: empty for a generated line, else
/// column 0, source index and source line relative to the line before, column 0.
pub open spec fn segment_at(m: Seq<Option<(usize, u32)>>, k: int) -> Seq<char> {
    match m[k] {
        Some((src, line)) => {
            let (ps, pl) = prev_position(m, k);
            vlq(0) + vlq(src - ps) + vlq(line - pl) + vlq(0)
        },
        None => Seq::empty(),
    }
}

/// The `mappings` field: one segment per output line, separated by `;`.
pub open spec fn spec_mappings(m: Seq<Option<(usize, u32)>>) -> Seq<char> {
    join(Seq::new(m.len(), |k: int| segment_at(m, k)), seq![';'])
}

/// A JSON array of the strings `items`.
pub open spec fn json_string_list(items: Seq<Seq<char>>) -> Seq<char> {
    join(items.map_values(|x: Seq<char>| json_string(x)), seq![','])
}

/// Joining the first `k + 1` of a family of parts.
proof fn lemma_join_new(n: nat, f: spec_fn(int) -> Seq<char>, k: int, sep: Seq<char>)
    requires
        0 <= k < n,
    ensures
        join(Seq::new((k + 1) as nat, f), sep) == if k == 0 {
            f(0)
        } else {
            join(Seq::new(k as nat, f), sep) + sep + f(k)
        },
{
    assert(Seq::new((k + 1) as nat, f) == Seq::new(k as nat, f).push(f(k)));
    lemma_join_push(Seq::new(k as nat, f), f(k), sep);
}

proof fn lemma_base64_not_semicolon(d: int)
    requires
        0 <= d < 64,
    ensures
        base64_digit(d) != ';',
{
    if d < 26 {
        assert(('A' as int + d) as char as int == 65 + d);
    } else if d < 52 {
        assert(('a' as int + (d - 26)) as char as int == 97 + d - 26);
    } else if d < 62 {
        assert(('0' as int + (d - 52)) as char as int == 48 + d - 52);
    }
}

proof fn lemma_vlq_digits_no_semicolon(z: nat)
    ensures
        forall|k: int| 0 <= k < vlq_digits(z).len() ==> #[trigger] vlq_digits(z)[k] != ';',
    decreases z,
{
    if z / 32 > 0 {
        lemma_vlq_digits_no_semicolon(z / 32);
        lemma_base64_not_semicolon((z % 32) as int + 32);
        let d = vlq_digits(z);
        assert forall|k: int| 0 <= k < d.len() implies #[trigger] d[k] != ';' by {
            if k > 0 {
                assert(d[k] == vlq_digits(z / 32)[k - 1]);
            }
        }
    } else {
        lemma_base64_not_semicolon(z as int);
    }
}

proof fn lemma_segment_no_semicolon(m: Seq<Option<(usize, u32)>>, k: int)
    requires
        0 <= k < m.len(),
    ensures
        count_char(segment_at(m, k), ';') == 0,
{
    match m[k] {
        Some((src, line)) => {
            let (ps, pl) = prev_position(m, k);
            let a = vlq(0);
            let b = vlq(src - ps);
            let c = vlq(line - pl);
            lemma_vlq_digits_no_semicolon(zigzag(0));
            lemma_vlq_digits_no_semicolon(zigzag(src - ps));
            lemma_vlq_digits_no_semicolon(zigzag(line - pl));
            let seg = a + b + c + a;
            assert forall|j: int| 0 <= j < seg.len() implies seg[j] != ';' by {
                if j < a.len() {
                    assert(seg[j] == a[j]);
                } else if j < a.len() + b.len() {
                    assert(seg[j] == b[j - a.len()]);
                } else if j < a.len() + b.len() + c.len() {
                    assert(seg[j] == c[j - a.len() - b.len()]);
                } else {
                    assert(seg[j] == a[j - a.len() - b.len() - c.len()]);
                }
            }
            lemma_count_none_of(seg, ';');
        },
        None => {
            assert(count_char(Seq::<char>::empty(), ';') == 0);
        },
    }
}

proof fn lemma_count_none_of(s: Seq<char>, c: char)
    requires
        forall|k: int| 0 <= k < s.len() ==> s[k] != c,
    ensures
        count_char(s, c) == 0,
    decreases s.len(),
{
    if s.len() > 0 {
        lemma_count_none_of(s.drop_last(), c);
    }
}

proof fn lemma_join_segments_count(m: Seq<Option<(usize, u32)>>, k: int)
    requires
        0 <= k < m.len(),
    ensures
        count_char(join(Seq::new((k + 1) as nat, |j: int| segment_at(m, j)), seq![';']), ';') == k,
    decreases k,
{
    let f = |j: int| segment_at(m, j);
    lemma_join_new(m.len(), f, k, seq![';']);
    lemma_segment_no_semicolon(m, k);
    if k > 0 {
        lemma_join_segments_count(m, k - 1);
        let prev = join(Seq::new(k as nat, f), seq![';']);
        lemma_count_char_concat(prev, seq![';'], ';');
        lemma_count_char_concat(prev + seq![';'], f(k), ';');
        lemma_count_char_single(';', ';');
    }
}

/// The `mappings` field holds one segment per line of the generated file:
/// its `;` separators are one fewer than the lines the map covers.
pub proof fn lemma_one_segment_per_line(m: Seq<Option<(usize, u32)>>)
    requires
        m.len() > 0,
    ensures
        count_char(spec_mappings(m), ';') + 1 == m.len(),
{
    lemma_join_segments_count(m, m.len() - 1);
    assert(Seq::new(m.len(), |j: int| segment_at(m, j)) =~= Seq::new(((m.len() - 1) + 1) as nat, |j: int| segment_at(m, j)));
}

/// How many characters the first Base64 VLQ value of `s` takes: up to and
/// including the first digit without a continuation bit.
pub open spec fn vlq_len(s: Seq<char>) -> int
    decreases s.len(),
{
    if s.len() == 0 {
        0
    } else {
        let d = digit_value(s[0]);
        if 32 <= d < 64 && s.len() > 1 {
            1 + vlq_len(s.drop_first())
        } else {
            1
        }
    }
}

/// The first `n` Base64 VLQ values of the segment `s`, read one after another.
pub open spec fn vlq_values(s: Seq<char>, n: nat) -> Seq<int>
    decreases n,
{
    if n == 0 {
        Seq::empty()
    } else {
        seq![vlq_decode(s)] + vlq_values(s.subrange(vlq_len(s), s.len() as int), (n - 1) as nat)
    }
}

proof fn lemma_vlq_digits_prefix(z: nat, rest: Seq<char>)
    ensures
        vlq_read(vlq_digits(z) + rest) == z,
        vlq_len(vlq_digits(z) + rest) == vlq_digits(z).len(),
    decreases z,
{
    if z / 32 > 0 {
        lemma_vlq_digits_prefix(z / 32, rest);
        lemma_vlq_digits(z / 32);
        lemma_base64_digit((z % 32) as int + 32);
        let s = vlq_digits(z) + rest;
        assert(s.drop_first() =~= vlq_digits(z / 32) + rest);
        assert(z == (z % 32) + 32 * (z / 32)) by (nonlinear_arith);
    } else {
        lemma_base64_digit(z as int);
    }
}

/// A value read from the front of a segment: the encoding of `v` followed by
/// anything reads back as `v` and takes exactly its own length.
proof fn lemma_vlq_prefix(v: int, rest: Seq<char>)
    ensures
        vlq_decode(vlq(v) + rest) == v,
        vlq_len(vlq(v) + rest) == vlq(v).len(),
        (vlq(v) + rest).subrange(vlq(v).len() as int, (vlq(v) + rest).len() as int) == rest,
{
    lemma_vlq_digits_prefix(zigzag(v), rest);
    lemma_vlq_roundtrip(v);
    assert((vlq(v) + rest).subrange(vlq(v).len() as int, (vlq(v) + rest).len() as int) =~= rest);
}

/// The four values of a mapped line's segment read back as written.
proof fn lemma_segment_values(a: int, b: int)
    ensures
        vlq_values(vlq(0) + vlq(a) + vlq(b) + vlq(0), 4) == seq![0int, a, b, 0int],
        (vlq(0) + vlq(a) + vlq(b) + vlq(0)).len() > 0,
{
    let s = vlq(0) + vlq(a) + vlq(b) + vlq(0);
    let r1 = vlq(a) + vlq(b) + vlq(0);
    let r2 = vlq(b) + vlq(0);
    let r3 = vlq(0);
    assert(s =~= vlq(0) + r1);
    assert(r1 =~= vlq(a) + r2);
    assert(r2 =~= vlq(b) + r3);
    assert(r3 =~= vlq(0) + Seq::<char>::empty());
    lemma_vlq_prefix(0, r1);
    lemma_vlq_prefix(a, r2);
    lemma_vlq_prefix(b, r3);
    lemma_vlq_prefix(0, Seq::<char>::empty());
    let e = Seq::<char>::empty();
    assert(s.subrange(vlq_len(s), s.len() as int) == r1);
    assert(r1.subrange(vlq_len(r1), r1.len() as int) == r2);
    assert(r2.subrange(vlq_len(r2), r2.len() as int) == r3);
    assert(r3.subrange(vlq_len(r3), r3.len() as int) =~= e);
    assert(vlq_values(e, 0) =~= Seq::<int>::empty());
    assert(vlq_values(r3, 1) =~= seq![0int]);
    assert(vlq_values(r2, 2) =~= seq![b, 0int]);
    assert(vlq_values(r1, 3) =~= seq![a, b, 0int]);
    assert(vlq_values(s, 4) =~= seq![0int, a, b, 0int]);
}

/// The source position that decoding has reached after the lines `d`: that of
/// the last line with a segment, or the origin.
pub open spec fn decoded_last(d: Seq<Option<(int, int)>>) -> (int, int)
    decreases d.len(),
{
    if d.len() == 0 {
        (0, 0)
    } else {
        match d.last() {
            Some(p) => p,
            None => decoded_last(d.drop_last()),
        }
    }
}

/// The `mappings` segments decoded line by line, as source map v3 reads them:
/// an empty segment maps nothing; otherwise the segment's second and third
/// values are added to the source index and source line reached so far.
pub open spec fn decode_lines(segs: Seq<Seq<char>>) -> Seq<Option<(int, int)>>
    decreases segs.len(),
{
    if segs.len() == 0 {
        Seq::empty()
    } else {
        let prev = decode_lines(segs.drop_last());
        let seg = segs.last();
        if seg.len() == 0 {
            prev.push(None)
        } else {
            let (s, l) = decoded_last(prev);
            let v = vlq_values(seg, 4);
            prev.push(Some((s + v[1], l + v[2])))
        }
    }
}

/// A line map with its positions as integers.
pub open spec fn map_view(m: Seq<Option<(usize, u32)>>) -> Seq<Option<(int, int)>> {
    m.map_values(
        |o: Option<(usize, u32)>|
            match o {
                Some((s, l)) => Some((s as int, l as int)),
                None => None,
            },
    )
}

proof fn lemma_split_plain(x: Seq<char>)
    requires
        forall|i: int| 0 <= i < x.len() ==> x[i] != ';',
    ensures
        split_on(x, ';') == seq![x],
    decreases x.len(),
{
    if x.len() > 0 {
        lemma_split_plain(x.drop_last());
        assert(x.drop_last().push(x.last()) =~= x);
        assert(seq![x.drop_last()].update(0, x.drop_last().push(x.last())) =~= seq![x]);
    } else {
        assert(x =~= Seq::<char>::empty());
    }
}

proof fn lemma_split_append(a: Seq<char>, x: Seq<char>)
    requires
        forall|i: int| 0 <= i < x.len() ==> x[i] != ';',
    ensures
        split_on(a + seq![';'] + x, ';') == split_on(a, ';').push(x),
    decreases x.len(),
{
    let s = a + seq![';'] + x;
    if x.len() == 0 {
        assert(s.drop_last() =~= a);
        assert(x =~= Seq::<char>::empty());
    } else {
        assert(s.drop_last() =~= a + seq![';'] + x.drop_last());
        lemma_split_append(a, x.drop_last());
        let r = split_on(a, ';').push(x.drop_last());
        assert(x.drop_last().push(x.last()) =~= x);
        assert(r.update(r.len() - 1, r.last().push(x.last())) =~= split_on(a, ';').push(x));
    }
}

proof fn lemma_split_join(parts: Seq<Seq<char>>)
    requires
        parts.len() > 0,
        forall|k: int, i: int| 0 <= k < parts.len() && 0 <= i < parts[k].len() ==> #[trigger] parts[k][i] != ';',
    ensures
        split_on(join(parts, seq![';']), ';') == parts,
    decreases parts.len(),
{
    if parts.len() == 1 {
        lemma_split_plain(parts[0]);
        assert(seq![parts[0]] =~= parts);
    } else {
        let front = parts.drop_last();
        lemma_split_join(front);
        assert(front.push(parts.last()) =~= parts);
        lemma_join_push(front, parts.last(), seq![';']);
        lemma_split_append(join(front, seq![';']), parts.last());
    }
}

proof fn lemma_count_zero(s: Seq<char>, c: char)
    requires
        count_char(s, c) == 0,
    ensures
        forall|i: int| 0 <= i < s.len() ==> s[i] != c,
    decreases s.len(),
{
    if s.len() > 0 {
        lemma_count_zero(s.drop_last(), c);
        assert forall|i: int| 0 <= i < s.len() implies s[i] != c by {
            if i < s.len() - 1 {
                assert(s[i] == s.drop_last()[i]);
            }
        }
    }
}

/// The `mappings` field reads back as the line map it was written from:
/// split at `;` and decoded line by line as source map v3 prescribes, it
/// gives one entry per output line, nothing for an unmapped line and the
/// recorded source index and line for a mapped one.
pub proof fn lemma_mappings_decode(m: Seq<Option<(usize, u32)>>)
    requires
        m.len() > 0,
    ensures
        decode_lines(split_on(spec_mappings(m), ';')) == map_view(m),
{
    let n = m.len();
    let segs = Seq::new(n, |k: int| segment_at(m, k));
    assert forall|k: int, i: int| 0 <= k < segs.len() && 0 <= i < segs[k].len() implies #[trigger] segs[k][i] != ';' by {
        lemma_segment_no_semicolon(m, k);
        lemma_count_zero(segment_at(m, k), ';');
    }
    lemma_split_join(segs);
    let mv = map_view(m);
    assert forall|k: int| 0 <= k <= n implies decode_lines(#[trigger] segs.take(k)) == mv.take(k) && decoded_last(
        mv.take(k),
    ) == prev_position(m, k) by {
        lemma_decode_upto(m, k);
    }
    assert(segs.take(n as int) =~= segs);
    assert(mv.take(n as int) =~= mv);
}

proof fn lemma_decode_upto(m: Seq<Option<(usize, u32)>>, k: int)
    requires
        0 <= k <= m.len(),
    ensures
        decode_lines(Seq::new(m.len(), |j: int| segment_at(m, j)).take(k)) == map_view(m).take(k),
        decoded_last(map_view(m).take(k)) == prev_position(m, k),
    decreases k,
{
    let segs = Seq::new(m.len(), |j: int| segment_at(m, j));
    let mv = map_view(m);
    if k == 0 {
        assert(segs.take(0) =~= Seq::<Seq<char>>::empty());
        assert(mv.take(0) =~= Seq::<Option<(int, int)>>::empty());
    } else {
        lemma_decode_upto(m, k - 1);
        assert(segs.take(k).drop_last() =~= segs.take(k - 1));
        assert(segs.take(k).last() == segment_at(m, k - 1));
        assert(mv.take(k) =~= mv.take(k - 1).push(mv[k - 1]));
        assert(mv.take(k).drop_last() =~= mv.take(k - 1));
        match m[k - 1] {
            Some((src, line)) => {
                let (ps, pl) = prev_position(m, k - 1);
                lemma_segment_values(src - ps, line - pl);
            },
            None => {},
        }
    }
}

/// A character that a JSON string literal writes as itself.
pub open spec fn json_plain_char(c: char) -> bool {
    c != '"' && c != '\\' && c as u32 >= 0x20
}

proof fn lemma_json_plain(x: Seq<char>)
    requires
        forall|i: int| 0 <= i < x.len() ==> json_plain_char(#[trigger] x[i]),
    ensures
        json_escaped(x) == x,
    decreases x.len(),
{
    if x.len() > 0 {
        lemma_json_plain(x.drop_last());
        assert(json_plain_char(x[x.len() - 1]));
        assert(x.drop_last().push(x.last()) =~= x);
        assert(json_escape_char(x.last()) =~= seq![x.last()]);
    }
}

proof fn lemma_join_plain(parts: Seq<Seq<char>>)
    requires
        forall|k: int, i: int| 0 <= k < parts.len() && 0 <= i < parts[k].len() ==> json_plain_char(#[trigger] parts[k][i]),
    ensures
        forall|i: int| 0 <= i < join(parts, seq![';']).len() ==> json_plain_char(#[trigger] join(parts, seq![';'])[i]),
    decreases parts.len(),
{
    if parts.len() > 1 {
        let front = parts.drop_last();
        lemma_join_plain(front);
        assert(front.push(parts.last()) =~= parts);
        lemma_join_push(front, parts.last(), seq![';']);
        let j = join(front, seq![';']) + seq![';'] + parts.last();
        assert forall|i: int| 0 <= i < j.len() implies json_plain_char(#[trigger] j[i]) by {
            let a = join(front, seq![';']).len();
            if i < a {
                assert(j[i] == join(front, seq![';'])[i]);
            } else if i > a {
                assert(j[i] == parts.last()[i - a - 1]);
                assert(json_plain_char(parts[parts.len() - 1][i - a - 1]));
            }
        }
    } else if parts.len() == 1 {
        assert forall|i: int| 0 <= i < parts[0].len() implies json_plain_char(#[trigger] parts[0][i]) by {
            assert(json_plain_char(parts[0][i]));
        }
    }
}

/// The `mappings` field stands in the JSON document as it is: its Base64
/// digits and `;` separators need no escaping.
pub proof fn lemma_mappings_json_plain(m: Seq<Option<(usize, u32)>>)
    ensures
        json_string(spec_mappings(m)) == seq!['"'] + spec_mappings(m) + seq!['"'],
{
    let n = m.len();
    let segs = Seq::new(n, |k: int| segment_at(m, k));
    assert forall|k: int, i: int| 0 <= k < segs.len() && 0 <= i < segs[k].len() implies json_plain_char(
        #[trigger] segs[k][i],
    ) by {
        lemma_segment_digits(m, k);
        let c = segs[k][i];
        assert(digit_value(c) < 64);
    }
    lemma_join_plain(segs);
    lemma_json_plain(spec_mappings(m));
}

/// Every character of a line's segment is a Base64 digit.
proof fn lemma_segment_digits(m: Seq<Option<(usize, u32)>>, k: int)
    requires
        0 <= k < m.len(),
    ensures
        forall|i: int| 0 <= i < segment_at(m, k).len() ==> digit_value(#[trigger] segment_at(m, k)[i]) < 64,
{
    match m[k] {
        Some((src, line)) => {
            let (ps, pl) = prev_position(m, k);
            let a = vlq(0);
            let b = vlq(src - ps);
            let c = vlq(line - pl);
            lemma_vlq_roundtrip(0);
            lemma_vlq_roundtrip(src - ps);
            lemma_vlq_roundtrip(line - pl);
            let seg = a + b + c + a;
            assert forall|j: int| 0 <= j < seg.len() implies digit_value(#[trigger] seg[j]) < 64 by {
                if j < a.len() {
                    assert(seg[j] == a[j]);
                } else if j < a.len() + b.len() {
                    assert(seg[j] == b[j - a.len()]);
                } else if j < a.len() + b.len() + c.len() {
                    assert(seg[j] == c[j - a.len() - b.len()]);
                } else {
                    assert(seg[j] == a[j - a.len() - b.len() - c.len()]);
                }
            }
        },
        None => {},
    }
}

/// The source map v3 JSON document for a generated file, its sources, their
/// contents and the line map.
pub open spec fn source_map_json(
    file: Seq<char>,
    paths: Seq<Seq<char>>,
    contents: Seq<Seq<char>>,
    m: Seq<Option<(usize, u32)>>,
) -> Seq<char> {
    "{\"version\":3,\"file\":"@ + json_string(file) + ",\"sources\":["@ + json_string_list(paths)
        + "],\"sourcesContent\":["@ + json_string_list(contents) + "],\"mappings\":"@
        + json_string(spec_mappings(m)) + "}"@
}

/// Index of the first occurrence of `p` in `paths` from `k` on, or -1.
pub open spec fn find_path(paths: Seq<Seq<char>>, p: Seq<char>, k: int) -> int
    decreases paths.len() - k,
{
    if k < 0 || k >= paths.len() {
        -1
    } else if paths[k] == p {
        k
    } else {
        find_path(paths, p, k + 1)
    }
}

pub proof fn lemma_find_path(paths: Seq<Seq<char>>, p: Seq<char>, k: int)
    requires
        0 <= k,
    ensures
        find_path(paths, p, k) == -1 || (k <= find_path(paths, p, k) < paths.len() && paths[find_path(paths, p, k)] == p),
        find_path(paths, p, k) == -1 <==> forall|j: int| k <= j < paths.len() ==> paths[j] != p,
    decreases paths.len() - k,
{
    if k < paths.len() && paths[k] != p {
        lemma_find_path(paths, p, k + 1);
    }
}

/// Every mapped line of `m` refers to a source index and line that fit in `i32`.
pub open spec fn map_fits_i32(m: Seq<Option<(usize, u32)>>) -> bool {
    forall|k: int|
        0 <= k < m.len() ==> match #[trigger] m[k] {
            Some((src, line)) => src <= i32::MAX && line <= i32::MAX,
            None => true,
        }
}

/// Recording a mapping whose source index and line fit in `i32` keeps a line
/// map that fits.
pub proof fn lemma_with_mapping_fits(m: Seq<Option<(usize, u32)>>, line: int, src: usize, source_line: u32)
    requires
        map_fits_i32(m),
        0 <= line,
        src <= i32::MAX,
        source_line <= i32::MAX,
    ensures
        map_fits_i32(with_mapping(m, line, src, source_line)),
{
    let r = with_mapping(m, line, src, source_line);
    assert forall|k: int| 0 <= k < r.len() implies match #[trigger] r[k] {
        Some((s, l)) => s <= i32::MAX && l <= i32::MAX,
        None => true,
    } by {
        if k != line && k < m.len() {
            assert(r[k] == m[k]);
        }
    }
}

/// In a sequence without repeats, the first occurrence of an element is its
/// only one.
proof fn lemma_find_first(paths: Seq<Seq<char>>, p: Seq<char>, i: int)
    requires
        0 <= i < paths.len(),
        paths[i] == p,
        forall|j: int| 0 <= j < i ==> paths[j] != p,
    ensures
        find_path(paths, p, 0) == i,
{
    lemma_find_path_from(paths, p, 0, i);
}

proof fn lemma_find_path_from(paths: Seq<Seq<char>>, p: Seq<char>, k: int, i: int)
    requires
        0 <= k <= i < paths.len(),
        paths[i] == p,
        forall|j: int| k <= j < i ==> paths[j] != p,
    ensures
        find_path(paths, p, k) == i,
    decreases i - k,
{
    if k < i {
        lemma_find_path_from(paths, p, k + 1, i);
    }
}

/// The line map after making room for output line `line`: gaps filled with `None`.
pub open spec fn ensure_len(m: Seq<Option<(usize, u32)>>, line: int) -> Seq<Option<(usize, u32)>> {
    if m.len() > line {
        m
    } else {
        m + Seq::new((line + 1 - m.len()) as nat, |k: int| None::<(usize, u32)>)
    }
}

/// The line map after recording that output `line` comes from `source_line` of `src`.
pub open spec fn with_mapping(
    m: Seq<Option<(usize, u32)>>,
    line: int,
    src: usize,
    source_line: u32,
) -> Seq<Option<(usize, u32)>> {
    ensure_len(m, line).update(line, Some((src, source_line)))
}

/// The line map after recording `count` consecutive lines.
pub open spec fn with_mappings(
    m: Seq<Option<(usize, u32)>>,
    first_line: int,
    src: usize,
    first_source_line: int,
    count: int,
) -> Seq<Option<(usize, u32)>>
    decreases count,
{
    if count <= 0 {
        m
    } else {
        with_mapping(
            with_mappings(m, first_line, src, first_source_line, count - 1),
            first_line + count - 1,
            src,
            (first_source_line + count - 1) as u32,
        )
    }
}

/// Builds sourcemap v3 JSON by tracking output line -> source file + line.
pub struct SourceMapBuilder {
    pub file: String,
    pub sources: Vec<String>,
    pub sources_content: Vec<String>,
    /// The nth entry holds the (source_idx, source_line) for output line n.
    /// `None` means the line is generated (no source mapping).
    line_map: Vec<Option<(usize, u32)>>,
}

impl SourceMapBuilder {
    /// The registered source paths, in registration order.
    pub closed spec fn source_paths(&self) -> Seq<Seq<char>> {
        self.sources@.map_values(|s: String| s@)
    }

    /// The registered source contents, in registration order.
    pub closed spec fn source_contents(&self) -> Seq<Seq<char>> {
        self.sources_content@.map_values(|s: String| s@)
    }

    /// The name of the generated file.
    pub closed spec fn file_name(&self) -> Seq<char> {
        self.file@
    }

    /// The line map: entry `n` is the origin of output line `n`.
    pub closed spec fn lines(&self) -> Seq<Option<(usize, u32)>> {
        self.line_map@
    }

    /// Well-formed: one content per source, and no path registered twice.
    pub closed spec fn wf(&self) -> bool {
        &&& self.sources@.len() == self.sources_content@.len()
        &&& forall|a: int, b: int|
            0 <= a < b < self.sources@.len() ==> #[trigger] self.sources@[a]@
                != #[trigger] self.sources@[b]@
    }

    /// What well-formedness gives callers: one content per registered path,
    /// and no path registered twice.
    pub proof fn lemma_wf_paths(&self)
        requires
            self.wf(),
        ensures
            self.source_contents().len() == self.source_paths().len(),
            forall|a: int, b: int|
                0 <= a < b < self.source_paths().len() ==> #[trigger] self.source_paths()[a]
                    != #[trigger] self.source_paths()[b],
    {
        assert forall|a: int, b: int| 0 <= a < b < self.source_paths().len() implies #[trigger] self.source_paths()[a]
            != #[trigger] self.source_paths()[b] by {
            assert(self.source_paths()[a] == self.sources@[a]@);
            assert(self.source_paths()[b] == self.sources@[b]@);
        }
    }

    /// Every mapped output line refers to a source index and line that the JSON
    /// encoding can take as signed 32-bit numbers.
    pub open spec fn fits_i32(&self) -> bool {
        map_fits_i32(self.lines())
    }

    /// The source map v3 JSON document of this builder.
    pub open spec fn spec_json(&self) -> Seq<char> {
        source_map_json(self.file_name(), self.source_paths(), self.source_contents(), self.lines())
    }

    pub fn new(file: String) -> (r: Self)
        ensures
            r.wf(),
            r.file_name() == file@,
            r.source_paths() == Seq::<Seq<char>>::empty(),
            r.source_contents() == Seq::<Seq<char>>::empty(),
            r.lines() == Seq::<Option<(usize, u32)>>::empty(),
    {
        let r = Self { file, sources: vec![], sources_content: vec![], line_map: vec![] };
        assert(r.source_paths() =~= Seq::<Seq<char>>::empty());
        assert(r.source_contents() =~= Seq::<Seq<char>>::empty());
        r
    }

    /// Serialize to standard sourcemap v3 JSON.
    pub fn to_json(&self) -> (r: String)
        requires
            self.fits_i32(),
        ensures
            r@ == self.spec_json(),
    {
        let ghost m = self.lines();
        let ghost f = |k: int| segment_at(m, k);
        let n = self.line_map.len();
        let mut mappings: Vec<char> = Vec::new();
        // Previous segment values for relative encoding, carried across lines
        let mut prev_src_idx: i32 = 0;
        let mut prev_src_line: i32 = 0;
        let mut k: usize = 0;
        while k < n
            invariant
                n == m.len(),
                m == self.line_map@,
                self.fits_i32(),
                k <= n,
                f == (|k: int| segment_at(m, k)),
                mappings@ == join(Seq::new(k as nat, f), seq![';']),
                (prev_src_idx as int, prev_src_line as int) == prev_position(m, k as int),
                0 <= prev_src_idx,
                0 <= prev_src_line,
            decreases n - k,
        {
            proof {
                lemma_join_new(n as nat, f, k as int, seq![';']);
            }
            if k > 0 {
                mappings.push(';');
            }
            match self.line_map[k] {
                Some((src_idx, src_line)) => {
                    assert(self.lines()[k as int] == Some((src_idx, src_line)));
                    // columns are always 0: only whole lines are mapped
                    let src = src_idx as i32;
                    let sline = src_line as i32;
                    let seg_col = vlq_encode(0);
                    let seg_src = vlq_encode(src - prev_src_idx);
                    let seg_line = vlq_encode(sline - prev_src_line);
                    let seg_scol = vlq_encode(0);
                    push_str(&mut mappings, seg_col.as_str());
                    push_str(&mut mappings, seg_src.as_str());
                    push_str(&mut mappings, seg_line.as_str());
                    push_str(&mut mappings, seg_scol.as_str());
                    prev_src_idx = src;
                    prev_src_line = sline;
                },
                None => {
                    // a generated line: the relative state carries over
                },
            }
            k = k + 1;
        }
        let mut out: Vec<char> = Vec::new();
        push_str(&mut out, "{\"version\":3,\"file\":");
        let file_json = json_quote(self.file.as_str());
        push_str(&mut out, file_json.as_str());
        push_str(&mut out, ",\"sources\":[");
        push_json_list(&mut out, &self.sources);
        push_str(&mut out, "],\"sourcesContent\":[");
        push_json_list(&mut out, &self.sources_content);
        push_str(&mut out, "],\"mappings\":");
        let mappings_string = chars_to_string(&mappings);
        assert(mappings@ == spec_mappings(m));
        let mappings_json = json_quote(mappings_string.as_str());
        push_str(&mut out, mappings_json.as_str());
        push_str(&mut out, "}");
        chars_to_string(&out)
    }

    /// Register a source file and return its index. No-op if already added.
    pub fn add_source(&mut self, path: &str, content: &str) -> (idx: usize)
        ensures
            old(self).wf() ==> final(self).wf(),
            final(self).file_name() == old(self).file_name(),
            final(self).lines() == old(self).lines(),
            old(self).source_paths().contains(path@) ==> {
                &&& final(self).source_paths() == old(self).source_paths()
                &&& final(self).source_contents() == old(self).source_contents()
                &&& idx < old(self).source_paths().len()
                &&& old(self).source_paths()[idx as int] == path@
                &&& idx as int == find_path(old(self).source_paths(), path@, 0)
            },
            !old(self).source_paths().contains(path@) ==> {
                &&& final(self).source_paths() == old(self).source_paths().push(path@)
                &&& final(self).source_contents() == old(self).source_contents().push(content@)
                &&& idx == old(self).source_paths().len()
            },
    {
        let n = self.sources.len();
        let p = path.to_owned();
        let mut i: usize = 0;
        while i < n
            invariant
                *self == *old(self),
                p@ == path@,
                n == self.sources@.len(),
                i <= n,
                forall|k: int| 0 <= k < i ==> self.sources@[k]@ != path@,
            decreases n - i,
        {
            if self.sources[i] == p {
                proof {
                    assert(self.source_paths()[i as int] == path@);
                    lemma_find_first(self.source_paths(), path@, i as int);
                }
                return i;
            }
            i = i + 1;
        }
        proof {
            assert forall|k: int| 0 <= k < self.source_paths().len() implies self.source_paths()[k]
                != path@ by {
                assert(self.source_paths()[k] == self.sources@[k]@);
            }
        }
        let ghost old_paths = self.source_paths();
        let ghost old_contents = self.source_contents();
        self.sources.push(p);
        self.sources_content.push(content.to_owned());
        assert(self.source_paths() =~= old_paths.push(path@));
        assert(self.source_contents() =~= old_contents.push(content@));
        n
    }

    /// Ensure the line map has at least `line + 1` entries (filling gaps with
    /// `None`).  Returns the line number that was passed in so callers can
    /// chain.
    pub fn ensure_line(&mut self, line: u32) -> (r: u32)
        ensures
            r == line,
            final(self).lines() == ensure_len(old(self).lines(), line as int),
            old(self).wf() ==> final(self).wf(),
            final(self).file_name() == old(self).file_name(),
            final(self).source_paths() == old(self).source_paths(),
            final(self).source_contents() == old(self).source_contents(),
    {
        let ghost old_map = self.line_map@;
        while self.line_map.len() <= line as usize
            invariant
                self.file == old(self).file,
                self.sources == old(self).sources,
                self.sources_content == old(self).sources_content,
                self.line_map@.len() >= old_map.len(),
                self.line_map@.len() <= old_map.len() || self.line_map@.len() <= line + 1,
                self.line_map@.subrange(0, old_map.len() as int) == old_map,
                forall|k: int|
                    old_map.len() <= k < self.line_map@.len() ==> self.line_map@[k] is None,
            decreases line + 1 - self.line_map@.len(),
        {
            self.line_map.push(None);
        }
        assert(self.line_map@ =~= ensure_len(old_map, line as int));
        line
    }

    /// Record that output `line` comes from `source_line` of source
    /// `source_idx`.
    pub fn map_line(&mut self, line: u32, source_idx: usize, source_line: u32)
        ensures
            final(self).lines() == with_mapping(
                old(self).lines(),
                line as int,
                source_idx,
                source_line,
            ),
            old(self).wf() ==> final(self).wf(),
            final(self).file_name() == old(self).file_name(),
            final(self).source_paths() == old(self).source_paths(),
            final(self).source_contents() == old(self).source_contents(),
    {
        let line = self.ensure_line(line);
        self.line_map.set(line as usize, Some((source_idx, source_line)));
    }

    /// Record a range of consecutive lines.
    pub fn map_lines(
        &mut self,
        first_output_line: u32,
        source_idx: usize,
        first_source_line: u32,
        count: u32,
    )
        requires
            count == 0 || first_output_line + count - 1 <= u32::MAX,
            count == 0 || first_source_line + count - 1 <= u32::MAX,
        ensures
            final(self).lines() == with_mappings(
                old(self).lines(),
                first_output_line as int,
                source_idx,
                first_source_line as int,
                count as int,
            ),
            old(self).wf() ==> final(self).wf(),
            final(self).file_name() == old(self).file_name(),
            final(self).source_paths() == old(self).source_paths(),
            final(self).source_contents() == old(self).source_contents(),
    {
        let mut i: u32 = 0;
        while i < count
            invariant
                i <= count,
                count == 0 || first_output_line + count - 1 <= u32::MAX,
                count == 0 || first_source_line + count - 1 <= u32::MAX,
                self.lines() == with_mappings(
                    old(self).lines(),
                    first_output_line as int,
                    source_idx,
                    first_source_line as int,
                    i as int,
                ),
                old(self).wf() ==> self.wf(),
                self.file_name() == old(self).file_name(),
                self.source_paths() == old(self).source_paths(),
                self.source_contents() == old(self).source_contents(),
            decreases count - i,
        {
            self.map_line(first_output_line + i, source_idx, first_source_line + i);
            i = i + 1;
        }
    }
}

} // verus!
