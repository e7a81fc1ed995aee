//! ToUnicode CMaps: the tables that map a font's character codes to text.
use vstd::prelude::*;
use vstd::string::StringSliceAdditionalSpecFns;
use vstd::utf8::is_char_boundary;
use crate::keywords::{utf8_lossy, utf8_lossy_of};
use crate::unicode::{hex4_text, lemma_parse_hex_four_digits, parse_hex, parse_hex_range, utf16_decode_lossy, utf16_lossy};
use crate::chars::chars_of;
use crate::headings::{char_seq_views, words, words_of};
use std::collections::HashMap;
use vstd::utf8::encode_utf8;
use crate::text::{seq_views, split_chars, split_on, trim, trim_chars};

verus! {

/// The bytes between a leading `<` and a trailing `>`.
pub open spec fn angle_inner(b: Seq<u8>) -> Option<Seq<u8>> {
    if b.len() >= 2 && b[0] == 0x3C && b.last() == 0x3E {
        Some(b.subrange(1, b.len() - 1))
    } else {
        None
    }
}

/// A code written `<hex>`: at most four hexadecimal digits' worth.
pub open spec fn hex_token(b: Seq<u8>) -> Option<u16> {
    match angle_inner(b) {
        Some(inner) => match parse_hex(inner, 0xFFFF) {
            Some(v) => Some(v as u16),
            None => None,
        },
        None => None,
    }
}

/// The code that the token `s` (`<hex>`) writes.
pub fn parse_hex_token(s: &str) -> (r: Option<u16>)
    ensures
        r == hex_token(s.spec_bytes()),
{
    let b = s.as_bytes();
    let n = b.len();
    if n < 2 || b[0] != 0x3C || b[n - 1] != 0x3E {
        return None;
    }
    match parse_hex_range(b, 1, n - 1, 0xFFFF) {
        Some(v) => Some(v as u16),
        None => None,
    }
}

/// The UTF-16 code units written as groups of four hexadecimal digits in
/// the first `k` groups of `inner`; groups that do not parse are left out.
pub open spec fn quad_units(inner: Seq<u8>, k: int) -> Seq<u16>
    decreases k,
{
    if k <= 0 {
        Seq::empty()
    } else {
        let rest = quad_units(inner, k - 1);
        match parse_hex(inner.subrange(4 * (k - 1), 4 * k), 0xFFFF) {
            Some(v) => rest.push(v as u16),
            None => rest,
        }
    }
}

/// The bytes written as pairs of hexadecimal digits in the first `k` pairs
/// of `inner` (the last pair may have one digit); pairs that do not parse
/// are left out.
pub open spec fn pair_bytes(inner: Seq<u8>, k: int) -> Seq<u8>
    decreases k,
{
    if k <= 0 {
        Seq::empty()
    } else {
        let rest = pair_bytes(inner, k - 1);
        let hi = if 2 * k <= inner.len() {
            2 * k
        } else {
            inner.len() as int
        };
        match parse_hex(inner.subrange(2 * (k - 1), hi), 0xFF) {
            Some(v) => rest.push(v as u8),
            None => rest,
        }
    }
}

/// The text that a CMap destination token `<hex>` stands for: groups of
/// four digits are UTF-16 code units; two digits are one character; any
/// other length is read as pairs of digits giving UTF-8 bytes.
pub open spec fn hex_unicode_of(b: Seq<u8>) -> Option<Seq<char>> {
    match angle_inner(b) {
        None => None,
        Some(inner) => {
            let l = inner.len() as int;
            if l >= 4 && l % 4 == 0 {
                Some(utf16_lossy(quad_units(inner, l / 4)))
            } else if l == 2 {
                match parse_hex(inner, 0xFFFF) {
                    Some(v) => Some(seq![(v as u32) as char]),
                    None => None,
                }
            } else {
                Some(utf8_lossy_of(pair_bytes(inner, (l + 1) / 2)))
            }
        },
    }
}

/// Reading the token `b` (the bytes of a string) would cut a character in
/// two: a group of digits would start or end inside a multi-byte character.
pub open spec fn hex_unicode_panics(b: Seq<u8>) -> bool {
    match angle_inner(b) {
        None => false,
        Some(inner) => {
            let l = inner.len() as int;
            if l == 2 {
                false
            } else {
                let step = if l >= 4 && l % 4 == 0 {
                    4int
                } else {
                    2int
                };
                exists|k: int| 0 < k < l && k % step == 0 && !#[trigger] is_char_boundary(b, k + 1)
            }
        },
    }
}

/// The text for the token, or `None` where the token has no angle
/// brackets or its two digits do not parse; the outer `None` where reading
/// it would cut a character.
fn hex_unicode_checked(s: &str) -> (r: Option<Option<String>>)
    ensures
        hex_unicode_panics(s.spec_bytes()) <==> r is None,
        r matches Some(x) ==> match hex_unicode_of(s.spec_bytes()) {
            Some(t) => x matches Some(y) && y@ == t,
            None => x is None,
        },
{
    let b = s.as_bytes();
    let n = b.len();
    if n < 2 || b[0] != 0x3C || b[n - 1] != 0x3E {
        return Some(None);
    }
    let ghost inner = b@.subrange(1, n - 1);
    let l = n - 2;
    if l == 2 {
        return match parse_hex_range(b, 1, 3, 0xFFFF) {
            Some(v) => {
                let c = match crate::unicode::char_from_u32(v) {
                    Some(c) => c,
                    None => ' ',
                };
                assert(inner =~= b@.subrange(1, 3));
                let mut out: Vec<char> = Vec::new();
                out.push(c);
                proof {
                    assert(v <= 0xFF) by {
                        crate::unicode::lemma_two_digits_le_ff(inner);
                    }
                }
                assert(out@ =~= seq![(v as u32) as char]);
                Some(Some(crate::chars::string_of(&out)))
            },
            None => {
                assert(inner =~= b@.subrange(1, 3));
                Some(None)
            },
        };
    }
    let step: usize = if l >= 4 && l % 4 == 0 {
        4
    } else {
        2
    };
    let groups = l / step;
    let mut g: usize = 1;
    while g <= groups
        invariant
            step == (if l >= 4 && l % 4 == 0 {
                4usize
            } else {
                2usize
            }),
            l != 2,
            l == n - 2,
            n == b@.len(),
            b@ == s.spec_bytes(),
            angle_inner(b@) == Some(inner),
            inner.len() == l,
            groups == l / step,
            1 <= g <= groups + 1,
            forall|m: int|
                0 < m < l && m < step * g && m % (step as int) == 0 ==> #[trigger] is_char_boundary(
                    b@,
                    m + 1,
                ),
        decreases groups + 1 - g,
    {
        let k = step * g;
        if k < l && !s.is_char_boundary(k + 1) {
            assert(!is_char_boundary(b@, k + 1));
            assert(k % step == 0);
            return None;
        }
        proof {
            assert forall|m: int|
                0 < m < l && m < step * (g + 1) && m % (step as int) == 0 implies #[trigger] is_char_boundary(
                b@,
                m + 1,
            ) by {
                if m >= step * g {
                    assert(m == step * g) by (nonlinear_arith)
                        requires
                            m % (step as int) == 0,
                            step * g <= m < step * (g + 1),
                            step > 0,
                    ;
                }
            }
        }
        g = g + 1;
    }
    proof {
        assert forall|m: int| 0 < m < l && m % (step as int) == 0 implies #[trigger] is_char_boundary(
            b@,
            m + 1,
        ) by {
            assert(m < step * g) by (nonlinear_arith)
                requires
                    m < l,
                    g == l / step + 1,
                    step > 0,
            ;
        }
    }
    assert(!hex_unicode_panics(b@));
    if step == 4 {
        let mut units: Vec<u16> = Vec::new();
        let mut g: usize = 0;
        while g < l / 4
            invariant
                l == n - 2,
                n == b@.len(),
                inner == b@.subrange(1, n - 1),
                g <= l / 4,
                units@ == quad_units(inner, g as int),
            decreases l / 4 - g,
        {
            assert(inner.subrange(4 * g, 4 * g + 4) =~= b@.subrange(1 + 4 * g, 5 + 4 * g));
            match parse_hex_range(b, 1 + 4 * g, 5 + 4 * g, 0xFFFF) {
                Some(v) => {
                    units.push(v as u16);
                },
                None => {},
            }
            g = g + 1;
        }
        let chars = utf16_decode_lossy(&units);
        Some(Some(crate::chars::string_of(&chars)))
    } else {
        let mut bytes: Vec<u8> = Vec::new();
        let mut g: usize = 0;
        let pairs = (l + 1) / 2;
        while g < pairs
            invariant
                l == n - 2,
                n == b@.len(),
                pairs == (l + 1) / 2,
                inner == b@.subrange(1, n - 1),
                g <= pairs,
                bytes@ == pair_bytes(inner, g as int),
            decreases pairs - g,
        {
            let hi = if 2 * g + 2 <= l {
                2 * g + 2
            } else {
                l
            };
            assert(inner.subrange(2 * g, hi as int) =~= b@.subrange(1 + 2 * g, 1 + hi));
            match parse_hex_range(b, 1 + 2 * g, 1 + hi, 0xFF) {
                Some(v) => {
                    bytes.push(v as u8);
                },
                None => {},
            }
            g = g + 1;
        }
        let text = utf8_lossy(bytes.as_slice());
        Some(Some(text))
    }
}

/// The text that a CMap destination token (`<hex>`) stands for: four
/// digits per UTF-16 code unit, two digits for one character, or pairs of
/// digits giving UTF-8 bytes for any other length; `None` without the
/// angle brackets or where two digits do not parse.
pub fn decode_hex_unicode(s: &str) -> (r: Option<String>)
    requires
        !hex_unicode_panics(s.spec_bytes()),
    ensures
        match hex_unicode_of(s.spec_bytes()) {
            Some(t) => r matches Some(y) && y@ == t,
            None => r is None,
        },
{
    match hex_unicode_checked(s) {
        Some(x) => x,
        None => None,
    }
}

/// Whether reading the CMap token `s` would cut a character in two.
pub fn hex_unicode_would_panic(s: &str) -> (r: bool)
    ensures
        r == hex_unicode_panics(s.spec_bytes()),
{
    hex_unicode_checked(s).is_none()
}

/// The first place at or after `i` where `pat` occurs in `s`.
pub open spec fn find_from(s: Seq<char>, pat: Seq<char>, i: int) -> Option<int>
    decreases s.len() + 1 - i,
{
    if i < 0 || i + pat.len() > s.len() {
        None
    } else if s.subrange(i, i + pat.len()) == pat {
        Some(i)
    } else {
        find_from(s, pat, i + 1)
    }
}

/// The first place where `pat` occurs in `s`, as `str::find`.
pub open spec fn find_text(s: Seq<char>, pat: Seq<char>) -> Option<int> {
    find_from(s, pat, 0)
}

/// `s` cut at each occurrence of `sep` (taken left to right, without
/// overlap), as `str::split` with a text pattern.
pub open spec fn split_text(s: Seq<char>, sep: Seq<char>) -> Seq<Seq<char>>
    decreases s.len(),
{
    match find_text(s, sep) {
        Some(i) => if sep.len() > 0 && 0 <= i && i + sep.len() <= s.len() {
            seq![s.take(i)] + split_text(s.skip(i + sep.len()), sep)
        } else {
            seq![s]
        },
        None => seq![s],
    }
}

proof fn lemma_find_from(s: Seq<char>, pat: Seq<char>, i: int)
    requires
        0 <= i,
    ensures
        match find_from(s, pat, i) {
            Some(j) => i <= j && j + pat.len() <= s.len() && s.subrange(j, j + pat.len()) == pat
                && forall|k: int| i <= k < j ==> #[trigger] s.subrange(k, k + pat.len()) != pat,
            None => forall|k: int|
                i <= k && k + pat.len() <= s.len() ==> #[trigger] s.subrange(k, k + pat.len()) != pat,
        },
    decreases s.len() + 1 - i,
{
    if i + pat.len() <= s.len() && s.subrange(i, i + pat.len()) != pat {
        lemma_find_from(s, pat, i + 1);
    }
}

/// The first place where `pat` occurs in `s`.
pub fn find_chars(s: &Vec<char>, pat: &Vec<char>) -> (r: Option<usize>)
    ensures
        match r {
            Some(i) => find_text(s@, pat@) == Some(i as int),
            None => find_text(s@, pat@) is None,
        },
{
    proof {
        lemma_find_from(s@, pat@, 0);
    }
    if pat.len() > s.len() {
        return None;
    }
    let mut i: usize = 0;
    while i <= s.len() - pat.len()
        invariant
            pat.len() <= s.len(),
            i <= s.len() - pat.len() + 1,
            find_from(s@, pat@, 0) == find_from(s@, pat@, i as int),
        decreases s.len() - pat.len() + 1 - i,
    {
        let mut k: usize = 0;
        let mut same = true;
        while k < pat.len()
            invariant
                pat.len() <= s.len(),
                i <= s.len() - pat.len(),
                k <= pat.len(),
                same == forall|m: int| 0 <= m < k ==> s@[i + m] == pat@[m],
            decreases pat.len() - k,
        {
            if s[i + k] != pat[k] {
                same = false;
            }
            k = k + 1;
        }
        if same {
            assert(s@.subrange(i as int, i + pat.len()) =~= pat@);
            return Some(i);
        }
        proof {
            let m = choose|m: int| 0 <= m < pat.len() && s@[i + m] != pat@[m];
            assert(s@.subrange(i as int, i + pat.len())[m] != pat@[m]);
        }
        i = i + 1;
    }
    None
}

fn slice_of(v: &Vec<char>, a: usize, b: usize) -> (r: Vec<char>)
    requires
        a <= b <= v.len(),
    ensures
        r@ == v@.subrange(a as int, b as int),
{
    let mut r: Vec<char> = Vec::new();
    let mut k = a;
    while k < b
        invariant
            a <= k <= b <= v.len(),
            r@ == v@.subrange(a as int, k as int),
        decreases b - k,
    {
        r.push(v[k]);
        k = k + 1;
        assert(r@ =~= v@.subrange(a as int, k as int));
    }
    r
}

/// `s` cut at each occurrence of the nonempty `sep`.
pub fn split_text_chars(s: &Vec<char>, sep: &Vec<char>) -> (r: Vec<Vec<char>>)
    requires
        sep@.len() > 0,
    ensures
        crate::headings::char_seq_views(r@) == split_text(s@, sep@),
{
    let mut out: Vec<Vec<char>> = Vec::new();
    let mut rest: Vec<char> = slice_of(s, 0, s.len());
    assert(rest@ =~= s@);
    loop
        invariant
            sep@.len() > 0,
            crate::headings::char_seq_views(out@) + split_text(rest@, sep@) == split_text(s@, sep@),
        decreases rest@.len(),
    {
        proof {
            lemma_find_from(rest@, sep@, 0);
        }
        match find_chars(&rest, sep) {
            Some(i) => {
                assert(find_text(rest@, sep@) == Some(i as int));
                assert(i + sep@.len() <= rest@.len());
                assert(i + sep.len() <= rest.len());
                let head = slice_of(&rest, 0, i);
                let tail = slice_of(&rest, i + sep.len(), rest.len());
                let ghost before = crate::headings::char_seq_views(out@);
                assert(head@ =~= rest@.take(i as int));
                assert(tail@ =~= rest@.skip(i + sep@.len()));
                out.push(head);
                assert(crate::headings::char_seq_views(out@) =~= before.push(head@));
                assert(before.push(head@) + split_text(tail@, sep@) =~= before + (seq![head@]
                    + split_text(tail@, sep@)));
                rest = tail;
            },
            None => {
                let ghost before = crate::headings::char_seq_views(out@);
                out.push(rest);
                assert(crate::headings::char_seq_views(out@) =~= before.push(out@.last()@));
                assert(crate::headings::char_seq_views(out@) =~= before + split_text(
                    out@.last()@,
                    sep@,
                ));
                return out;
            },
        }
    }
}

/// The part before the first `end` of each piece that has one.
pub open spec fn piece_bodies(pieces: Seq<Seq<char>>, end: Seq<char>) -> Seq<Seq<char>>
    decreases pieces.len(),
{
    if pieces.len() == 0 {
        Seq::empty()
    } else {
        let rest = piece_bodies(pieces.drop_last(), end);
        match find_text(pieces.last(), end) {
            Some(e) => rest.push(pieces.last().take(e)),
            None => rest,
        }
    }
}

/// The trimmed lines among `ls` that begin with `<`.
pub open spec fn tagged_lines(ls: Seq<Seq<char>>) -> Seq<Seq<char>>
    decreases ls.len(),
{
    if ls.len() == 0 {
        Seq::empty()
    } else {
        let rest = tagged_lines(ls.drop_last());
        let t = trim(ls.last());
        if t.len() > 0 && t[0] == '<' {
            rest.push(t)
        } else {
            rest
        }
    }
}

/// The entry lines of all bodies, in order.
pub open spec fn body_lines(bodies: Seq<Seq<char>>) -> Seq<Seq<char>>
    decreases bodies.len(),
{
    if bodies.len() == 0 {
        Seq::empty()
    } else {
        body_lines(bodies.drop_last()) + tagged_lines(split_on(bodies.last(), '\n'))
    }
}

/// The entry lines of the `begin … end` sections of a CMap: each piece of
/// the text cut at `begin` (the first piece too) up to its first `end`,
/// read line by line, trimmed, keeping the lines that begin with `<`.
/// (Each line is taken up to its `\n`; a `\r` before it goes with the
/// trimming.)
pub open spec fn section_lines(text: Seq<char>, begin: Seq<char>, end: Seq<char>) -> Seq<Seq<char>> {
    body_lines(piece_bodies(split_text(text, begin), end))
}

/// The trimmed lines of `body` that begin with `<`.
fn tagged_lines_exec(body: &Vec<char>) -> (r: Vec<Vec<char>>)
    ensures
        char_seq_views(r@) == tagged_lines(split_on(body@, '\n')),
{
    let lines = split_chars(body, '\n');
    let ghost ls = seq_views(lines@);
    let mut out: Vec<Vec<char>> = Vec::new();
    let mut q: usize = 0;
    assert(ls.take(0) =~= Seq::<Seq<char>>::empty());
    while q < lines.len()
        invariant
            ls == seq_views(lines@),
            ls == split_on(body@, '\n'),
            q <= lines.len(),
            char_seq_views(out@) == tagged_lines(ls.take(q as int)),
        decreases lines.len() - q,
    {
        assert(ls.take(q + 1).drop_last() =~= ls.take(q as int));
        assert(ls.take(q + 1).last() == lines@[q as int]@);
        let t = trim_chars(&lines[q]);
        if t.len() > 0 && t[0] == '<' {
            let ghost prev = char_seq_views(out@);
            out.push(t);
            assert(char_seq_views(out@) =~= prev.push(t@));
        }
        q = q + 1;
    }
    assert(ls.take(lines.len() as int) =~= ls);
    out
}

/// The entry lines of the `begin … end` sections of `v`.
fn section_lines_exec(v: &Vec<char>, begin: &str, end: &str) -> (r: Vec<Vec<char>>)
    requires
        begin@.len() > 0,
    ensures
        char_seq_views(r@) == section_lines(v@, begin@, end@),
{
    let bc = chars_of(begin);
    let ec = chars_of(end);
    let pieces = split_text_chars(v, &bc);
    let ghost ps = char_seq_views(pieces@);
    let mut out: Vec<Vec<char>> = Vec::new();
    let mut p: usize = 0;
    assert(ps.take(0) =~= Seq::<Seq<char>>::empty());
    while p < pieces.len()
        invariant
            ps == char_seq_views(pieces@),
            ps == split_text(v@, begin@),
            ec@ == end@,
            p <= pieces.len(),
            char_seq_views(out@) == body_lines(piece_bodies(ps.take(p as int), end@)),
        decreases pieces.len() - p,
    {
        let ghost before = piece_bodies(ps.take(p as int), end@);
        assert(ps.take(p + 1).drop_last() =~= ps.take(p as int));
        assert(ps.take(p + 1).last() == pieces@[p as int]@);
        proof {
            lemma_find_from(pieces@[p as int]@, end@, 0);
        }
        match find_chars(&pieces[p], &ec) {
            Some(e) => {
                let body = slice_of(&pieces[p], 0, e);
                assert(body@ =~= pieces@[p as int]@.take(e as int));
                assert(piece_bodies(ps.take(p + 1), end@) == before.push(body@));
                let mut tl = tagged_lines_exec(&body);
                let ghost a = char_seq_views(out@);
                let ghost b = char_seq_views(tl@);
                out.append(&mut tl);
                assert(char_seq_views(out@) =~= a + b);
                assert(before.push(body@).drop_last() =~= before);
            },
            None => {
                assert(piece_bodies(ps.take(p + 1), end@) == before);
            },
        }
        p = p + 1;
    }
    assert(ps.take(pieces.len() as int) =~= ps);
    out
}

/// What one `bfchar` line `<src> <dst>` adds to the table.
pub open spec fn apply_char_line(m: Map<u16, Seq<char>>, line: Seq<char>) -> Map<u16, Seq<char>> {
    let w = words(line);
    if w.len() >= 2 {
        match (hex_token(encode_utf8(w[0])), hex_unicode_of(encode_utf8(w[1]))) {
            (Some(src), Some(dst)) => m.insert(src, dst),
            _ => m,
        }
    } else {
        m
    }
}

pub open spec fn apply_char_lines(m: Map<u16, Seq<char>>, lines: Seq<Seq<char>>) -> Map<
    u16,
    Seq<char>,
>
    decreases lines.len(),
{
    if lines.len() == 0 {
        m
    } else {
        apply_char_line(apply_char_lines(m, lines.drop_last()), lines.last())
    }
}

/// The codes `lo`, `lo + 1`, ... (`n` of them) mapped to consecutive
/// characters from `base` on, leaving out values that are no characters.
pub open spec fn insert_run(m: Map<u16, Seq<char>>, lo: u16, n: nat, base: u32) -> Map<
    u16,
    Seq<char>,
>
    decreases n,
{
    if n == 0 {
        m
    } else {
        let m1 = insert_run(m, lo, (n - 1) as nat, base);
        let cp = (base + n - 1) as u32;
        if crate::unicode::is_scalar_value(cp) {
            m1.insert((lo + n - 1) as u16, seq![cp as char])
        } else {
            m1
        }
    }
}

/// What one `bfrange` line `<lo> <hi> <dst>` adds to the table: the codes
/// `lo..=hi` mapped to the characters that follow the first character of
/// `dst`. (A `[ … ]` destination adds nothing.)
pub open spec fn apply_range_line(m: Map<u16, Seq<char>>, line: Seq<char>) -> Map<u16, Seq<char>> {
    let w = words(line);
    if w.len() >= 3 {
        match (hex_token(encode_utf8(w[0])), hex_token(encode_utf8(w[1]))) {
            (Some(lo), Some(hi)) => if w[2][0] == '<' {
                match hex_unicode_of(encode_utf8(w[2])) {
                    Some(d) => if d.len() > 0 {
                        insert_run(
                            m,
                            lo,
                            if lo <= hi {
                                (hi - lo + 1) as nat
                            } else {
                                0
                            },
                            d[0] as u32,
                        )
                    } else {
                        m
                    },
                    None => m,
                }
            } else {
                m
            },
            _ => m,
        }
    } else {
        m
    }
}

pub open spec fn apply_range_lines(m: Map<u16, Seq<char>>, lines: Seq<Seq<char>>) -> Map<
    u16,
    Seq<char>,
>
    decreases lines.len(),
{
    if lines.len() == 0 {
        m
    } else {
        apply_range_line(apply_range_lines(m, lines.drop_last()), lines.last())
    }
}

pub open spec fn bfchar_lines(text: Seq<char>) -> Seq<Seq<char>> {
    section_lines(text, "beginbfchar"@, "endbfchar"@)
}

pub open spec fn bfrange_lines(text: Seq<char>) -> Seq<Seq<char>> {
    section_lines(text, "beginbfrange"@, "endbfrange"@)
}

/// The table that a ToUnicode CMap's text defines: first every `bfchar`
/// entry, then every `bfrange` entry, a later entry for a code replacing an
/// earlier one.
pub open spec fn spec_to_unicode(text: Seq<char>) -> Map<u16, Seq<char>> {
    apply_range_lines(apply_char_lines(Map::empty(), bfchar_lines(text)), bfrange_lines(text))
}

pub open spec fn char_line_panics(line: Seq<char>) -> bool {
    let w = words(line);
    w.len() >= 2 && hex_unicode_panics(encode_utf8(w[1]))
}

pub open spec fn range_line_panics(line: Seq<char>) -> bool {
    let w = words(line);
    &&& w.len() >= 3
    &&& hex_token(encode_utf8(w[0])) is Some
    &&& hex_token(encode_utf8(w[1])) is Some
    &&& w[2][0] == '<'
    &&& hex_unicode_panics(encode_utf8(w[2]))
}

/// Reading the CMap text would cut a character of a destination token in
/// two.
pub open spec fn to_unicode_panics(text: Seq<char>) -> bool {
    (exists|k: int| 0 <= k < bfchar_lines(text).len() && char_line_panics(#[trigger] bfchar_lines(text)[k]))
        || (exists|k: int|
        0 <= k < bfrange_lines(text).len() && range_line_panics(#[trigger] bfrange_lines(text)[k]))
}

/// The table with each value taken as text.
pub open spec fn table_view(m: Map<u16, String>) -> Map<u16, Seq<char>> {
    m.map_values(|s: String| s@)
}

proof fn lemma_table_insert(m: Map<u16, String>, k: u16, v: String)
    ensures
        table_view(m.insert(k, v)) == table_view(m).insert(k, v@),
{
    assert(table_view(m.insert(k, v)) =~= table_view(m).insert(k, v@));
}

fn string_of_char(c: char) -> (s: String)
    ensures
        s@ == seq![c],
{
    let mut v: Vec<char> = Vec::new();
    v.push(c);
    assert(v@ =~= seq![c]);
    crate::chars::string_of(&v)
}

/// Adds one `bfchar` line to the table; `false` where reading it would cut
/// a character.
fn apply_char_line_exec(map: &mut HashMap<u16, String>, line: &Vec<char>) -> (ok: bool)
    ensures
        ok == !char_line_panics(line@),
        ok ==> table_view(final(map)@) == apply_char_line(table_view(old(map)@), line@),
{
    broadcast use vstd::std_specs::hash::group_hash_axioms;

    let w = words_of(line);
    assert(w@.len() == words(line@).len());
    if w.len() < 2 {
        return true;
    }
    assert(w@[0]@ == words(line@)[0]);
    assert(w@[1]@ == words(line@)[1]);
    let s0 = crate::chars::string_of(&w[0]);
    let s1 = crate::chars::string_of(&w[1]);
    let src = parse_hex_token(s0.as_str());
    let dst = match hex_unicode_checked(s1.as_str()) {
        Some(d) => d,
        None => {
            return false;
        },
    };
    match (src, dst) {
        (Some(k), Some(d)) => {
            let ghost before = map@;
            let ghost dv = d@;
            map.insert(k, d);
            proof {
                lemma_table_insert(before, k, d);
            }
        },
        _ => {},
    }
    true
}

/// Adds one `bfrange` line to the table; `false` where reading it would
/// cut a character.
fn apply_range_line_exec(map: &mut HashMap<u16, String>, line: &Vec<char>) -> (ok: bool)
    ensures
        ok == !range_line_panics(line@),
        ok ==> table_view(final(map)@) == apply_range_line(table_view(old(map)@), line@),
{
    broadcast use vstd::std_specs::hash::group_hash_axioms;

    let w = words_of(line);
    assert(w@.len() == words(line@).len());
    if w.len() < 3 {
        return true;
    }
    assert(w@[0]@ == words(line@)[0]);
    assert(w@[1]@ == words(line@)[1]);
    assert(w@[2]@ == words(line@)[2]);
    let lo = match parse_hex_token(crate::chars::string_of(&w[0]).as_str()) {
        Some(x) => x,
        None => {
            return true;
        },
    };
    let hi = match parse_hex_token(crate::chars::string_of(&w[1]).as_str()) {
        Some(x) => x,
        None => {
            return true;
        },
    };
    proof {
        crate::headings::lemma_words_nonempty(line@);
    }
    if w[2][0] != '<' {
        return true;
    }
    let d = match hex_unicode_checked(crate::chars::string_of(&w[2]).as_str()) {
        None => {
            return false;
        },
        Some(None) => {
            return true;
        },
        Some(Some(d)) => d,
    };
    let dc = chars_of(d.as_str());
    if dc.len() == 0 {
        return true;
    }
    let base: u32 = dc[0] as u32;
    proof {
        vstd::utf8::char_is_scalar(dc@[0]);
    }
    assert(base <= 0x10FFFF);
    let ghost m0 = table_view(map@);
    if lo <= hi {
        let mut code: u32 = lo as u32;
        while code <= hi as u32
            invariant
                lo <= hi,
                lo as u32 <= code <= hi as u32 + 1,
                base <= 0x10FFFF,
                table_view(map@) == insert_run(m0, lo, (code - lo) as nat, base),
            decreases hi as u32 + 1 - code,
        {
            let cp: u32 = base + (code - lo as u32);
            let ghost n = (code - lo + 1) as nat;
            assert(cp == (base + n - 1) as u32);
            assert((lo + n - 1) as u16 == code as u16);
            match crate::unicode::char_from_u32(cp) {
                Some(c) => {
                    let ghost before = map@;
                    let s = string_of_char(c);
                    map.insert(code as u16, s);
                    proof {
                        lemma_table_insert(before, code as u16, s);
                    }
                },
                None => {},
            }
            code = code + 1;
        }
    }
    true
}

/// The ToUnicode table that the CMap text defines (`bfchar` entries, then
/// `bfrange` entries), or `None` where reading a destination token would
/// cut a character in two.
pub fn parse_to_unicode_text(text: &str) -> (r: Option<HashMap<u16, String>>)
    ensures
        r is None <==> to_unicode_panics(text@),
        r matches Some(m) ==> table_view(m@) == spec_to_unicode(text@),
{
    let v = chars_of(text);
    let mut map: HashMap<u16, String> = HashMap::new();
    let ghost t = text@;
    proof {
        reveal_strlit("beginbfchar");
        reveal_strlit("beginbfrange");
    }
    let chars = section_lines_exec(&v, "beginbfchar", "endbfchar");
    let ghost cl = char_seq_views(chars@);
    assert(table_view(map@) =~= Map::<u16, Seq<char>>::empty());
    let mut i: usize = 0;
    while i < chars.len()
        invariant
            cl == char_seq_views(chars@),
            cl == bfchar_lines(t),
            t == text@,
            i <= chars.len(),
            table_view(map@) == apply_char_lines(Map::empty(), cl.take(i as int)),
            forall|k: int| 0 <= k < i ==> !char_line_panics(#[trigger] cl[k]),
        decreases chars.len() - i,
    {
        assert(cl.take(i + 1).drop_last() =~= cl.take(i as int));
        assert(cl.take(i + 1).last() == chars@[i as int]@);
        if !apply_char_line_exec(&mut map, &chars[i]) {
            assert(char_line_panics(cl[i as int]));
            assert(bfchar_lines(text@)[i as int] == cl[i as int]);
            assert(to_unicode_panics(text@));
            return None;
        }
        i = i + 1;
    }
    assert(cl.take(chars.len() as int) =~= cl);
    let ghost m1 = table_view(map@);
    let ranges = section_lines_exec(&v, "beginbfrange", "endbfrange");
    let ghost rl = char_seq_views(ranges@);
    let mut j: usize = 0;
    assert(rl.take(0) =~= Seq::<Seq<char>>::empty());
    while j < ranges.len()
        invariant
            rl == char_seq_views(ranges@),
            rl == bfrange_lines(t),
            t == text@,
            m1 == apply_char_lines(Map::empty(), bfchar_lines(t)),
            forall|k: int| 0 <= k < bfchar_lines(t).len() ==> !char_line_panics(
                #[trigger] bfchar_lines(t)[k],
            ),
            j <= ranges.len(),
            table_view(map@) == apply_range_lines(m1, rl.take(j as int)),
            forall|k: int| 0 <= k < j ==> !range_line_panics(#[trigger] rl[k]),
        decreases ranges.len() - j,
    {
        assert(rl.take(j + 1).drop_last() =~= rl.take(j as int));
        assert(rl.take(j + 1).last() == ranges@[j as int]@);
        if !apply_range_line_exec(&mut map, &ranges[j]) {
            assert(range_line_panics(rl[j as int]));
            assert(bfrange_lines(text@)[j as int] == rl[j as int]);
            assert(to_unicode_panics(text@));
            return None;
        }
        j = j + 1;
    }
    assert(rl.take(ranges.len() as int) =~= rl);
    Some(map)
}

/// The ToUnicode table of a CMap stream: its bytes read as UTF-8 (invalid
/// sequences replaced), then its `bfchar` and `bfrange` entries. `None`
/// where reading a destination token would cut a character in two.
pub fn parse_to_unicode(data: &[u8]) -> (r: Option<HashMap<u16, String>>)
    ensures
        r is None <==> to_unicode_panics(utf8_lossy_of(data@)),
        r matches Some(m) ==> table_view(m@) == spec_to_unicode(utf8_lossy_of(data@)),
{
    let text = utf8_lossy(data);
    parse_to_unicode_text(text.as_str())
}

/// An occurrence found in `x` is still the first one in `x` followed by
/// anything.
proof fn lemma_find_from_extend(x: Seq<char>, y: Seq<char>, pat: Seq<char>, i: int)
    requires
        find_from(x, pat, i) is Some,
    ensures
        find_from(x + y, pat, i) == find_from(x, pat, i),
    decreases x.len() + 1 - i,
{
    let xy = x + y;
    assert(i + pat.len() <= x.len());
    assert(xy.subrange(i, i + pat.len()) =~= x.subrange(i, i + pat.len()));
    if x.subrange(i, i + pat.len()) != pat {
        lemma_find_from_extend(x, y, pat, i + 1);
    }
}

/// A text that begins with the separator splits into an empty piece and the
/// pieces of the rest.
proof fn lemma_split_text_leading(r: Seq<char>, sep: Seq<char>)
    requires
        sep.len() > 0,
    ensures
        split_text(sep + r, sep) == seq![Seq::<char>::empty()] + split_text(r, sep),
{
    let s = sep + r;
    assert(s.subrange(0, sep.len() as int) =~= sep);
    assert(find_text(s, sep) == Some(0int));
    assert(s.take(0) =~= Seq::<char>::empty());
    assert(s.skip(sep.len() as int) =~= r);
}

proof fn lemma_piece_bodies_concat(a: Seq<Seq<char>>, b: Seq<Seq<char>>, end: Seq<char>)
    ensures
        piece_bodies(a + b, end) == piece_bodies(a, end) + piece_bodies(b, end),
    decreases b.len(),
{
    if b.len() == 0 {
        assert(a + b =~= a);
        assert(piece_bodies(a, end) + piece_bodies(b, end) =~= piece_bodies(a, end));
    } else {
        lemma_piece_bodies_concat(a, b.drop_last(), end);
        assert((a + b).drop_last() =~= a + b.drop_last());
        assert((a + b).last() == b.last());
        match find_text(b.last(), end) {
            Some(e) => {
                assert(piece_bodies(a, end) + piece_bodies(b.drop_last(), end).push(b.last().take(e))
                    =~= (piece_bodies(a, end) + piece_bodies(b.drop_last(), end)).push(
                    b.last().take(e),
                ));
            },
            None => {},
        }
    }
}

proof fn lemma_body_lines_concat(a: Seq<Seq<char>>, b: Seq<Seq<char>>)
    ensures
        body_lines(a + b) == body_lines(a) + body_lines(b),
    decreases b.len(),
{
    if b.len() == 0 {
        assert(a + b =~= a);
        assert(body_lines(a) + body_lines(b) =~= body_lines(a));
    } else {
        lemma_body_lines_concat(a, b.drop_last());
        assert((a + b).drop_last() =~= a + b.drop_last());
        assert((a + b).last() == b.last());
        let t = tagged_lines(split_on(b.last(), '\n'));
        assert(body_lines(a) + (body_lines(b.drop_last()) + t) =~= (body_lines(a) + body_lines(
            b.drop_last(),
        )) + t);
    }
}

/// A section `begin w end` at the front of a CMap text, followed by nothing
/// or by further text that opens with `begin`, contributes the entry lines of
/// its body `w` (which holds no `end` and opens no section before its end)
/// ahead of those of every later section: each `begin … end` section is read,
/// not only the first.
pub proof fn lemma_section_lines_prepend(
    w: Seq<char>,
    t: Seq<char>,
    begin: Seq<char>,
    end: Seq<char>,
)
    requires
        begin.len() > 0,
        end.len() > 0,
        find_text(w + end, end) == Some(w.len() as int),
        find_text(w + end + begin, begin) == Some((w.len() + end.len()) as int),
        t.len() == 0 || (begin.len() <= t.len() && t.take(begin.len() as int) == begin),
    ensures
        section_lines(begin + w + end + t, begin, end) == tagged_lines(split_on(w, '\n'))
            + section_lines(t, begin, end),
{
    let we = w + end;
    let s = begin + w + end + t;
    assert(s =~= begin + (we + t));
    lemma_split_text_leading(we + t, begin);
    let empty = Seq::<char>::empty();
    assert(find_text(empty, end) is None);
    assert(piece_bodies(seq![empty], end) =~= Seq::<Seq<char>>::empty()) by {
        assert(seq![empty].drop_last() =~= Seq::<Seq<char>>::empty());
        assert(seq![empty].last() == empty);
        assert(find_from(empty, end, 0) is None);
        assert(find_text(seq![empty].last(), end) is None);
        assert(piece_bodies(Seq::<Seq<char>>::empty(), end) =~= Seq::<Seq<char>>::empty());
        assert(piece_bodies(seq![empty], end) == piece_bodies(seq![empty].drop_last(), end));
    }
    let rest: Seq<Seq<char>> = if t.len() == 0 {
        Seq::empty()
    } else {
        split_text(t.skip(begin.len() as int), begin)
    };
    // The pieces of `w end t`: `w end`, then those after the next `begin`.
    if t.len() == 0 {
        assert(we + t =~= we);
        if find_text(we, begin) is Some {
            lemma_find_from_extend(we, begin, begin, 0);
            lemma_find_from(we, begin, 0);
        }
        assert(split_text(we, begin) == seq![we]);
        assert(split_text(t, begin) == seq![t]);
        assert(t =~= empty);
    } else {
        let t2 = t.skip(begin.len() as int);
        assert(t =~= begin + t2);
        assert(we + t =~= (we + begin) + t2);
        assert(we + begin =~= w + end + begin);
        lemma_find_from_extend(we + begin, t2, begin, 0);
        let i = (w.len() + end.len()) as int;
        assert((we + t).take(i) =~= we);
        assert((we + t).skip(i + begin.len()) =~= t2);
        assert(split_text(we + t, begin) == seq![we] + rest);
        lemma_split_text_leading(t2, begin);
        assert(split_text(t, begin) == seq![empty] + rest);
        lemma_piece_bodies_concat(seq![empty], rest, end);
        assert(seq![empty] + rest =~= split_text(t, begin));
    }
    assert(split_text(s, begin) =~= seq![empty, we] + rest) by {
        assert(seq![empty] + (seq![we] + rest) =~= seq![empty, we] + rest);
        if t.len() == 0 {
            assert(seq![empty] + seq![we] =~= seq![empty, we] + rest);
        }
    }
    assert(we.take(w.len() as int) =~= w);
    assert(piece_bodies(seq![empty, we], end) =~= seq![w]) by {
        assert(seq![empty, we].drop_last() =~= seq![empty]);
        assert(seq![empty, we].last() == we);
    }
    lemma_piece_bodies_concat(seq![empty, we], rest, end);
    lemma_body_lines_concat(seq![w], piece_bodies(rest, end));
    assert(body_lines(seq![w]) =~= tagged_lines(split_on(w, '\n'))) by {
        assert(seq![w].drop_last() =~= Seq::<Seq<char>>::empty());
        assert(seq![w].last() == w);
        assert(body_lines(Seq::<Seq<char>>::empty()) =~= Seq::<Seq<char>>::empty());
        assert(body_lines(seq![w]) == body_lines(seq![w].drop_last()) + tagged_lines(
            split_on(seq![w].last(), '\n'),
        ));
        assert(Seq::<Seq<char>>::empty() + tagged_lines(split_on(w, '\n')) =~= tagged_lines(
            split_on(w, '\n'),
        ));
    }
    if t.len() == 0 {
        assert(piece_bodies(rest, end) =~= Seq::<Seq<char>>::empty());
        assert(piece_bodies(split_text(t, begin), end) =~= Seq::<Seq<char>>::empty()) by {
            assert(seq![t].drop_last() =~= Seq::<Seq<char>>::empty());
        }
    } else {
        assert(piece_bodies(split_text(t, begin), end) =~= piece_bodies(rest, end));
    }
}

/// Entry lines applied in two runs give the table of applying them all: the
/// table is the earlier entries' table updated by the later entries.
pub proof fn lemma_apply_lines_concat(m: Map<u16, Seq<char>>, l1: Seq<Seq<char>>, l2: Seq<Seq<char>>)
    ensures
        apply_char_lines(m, l1 + l2) == apply_char_lines(apply_char_lines(m, l1), l2),
        apply_range_lines(m, l1 + l2) == apply_range_lines(apply_range_lines(m, l1), l2),
    decreases l2.len(),
{
    if l2.len() == 0 {
        assert(l1 + l2 =~= l1);
    } else {
        lemma_apply_lines_concat(m, l1, l2.drop_last());
        assert((l1 + l2).drop_last() =~= l1 + l2.drop_last());
        assert((l1 + l2).last() == l2.last());
    }
}

/// A code token `<hhhh>` written with the four hexadecimal digits of a
/// code, in lower or upper case, reads as that code.
pub proof fn lemma_hex_token_four_digits(v: u16, upper: bool)
    ensures
        hex_token(seq![0x3Cu8] + hex4_text(v, upper) + seq![0x3Eu8]) == Some(v),
{
    let b = seq![0x3Cu8] + hex4_text(v, upper) + seq![0x3Eu8];
    assert(b.subrange(1, b.len() - 1) =~= hex4_text(v, upper));
    lemma_parse_hex_four_digits(v, upper);
}

/// Every `beginbfchar … endbfchar` section, and likewise every
/// `beginbfrange … endbfrange` section, contributes its entry lines: a
/// section at the front adds its body's lines ahead of those of the
/// sections that follow.
pub proof fn lemma_cmap_sections(w: Seq<char>, t: Seq<char>)
    ensures
        find_text(w + "endbfchar"@, "endbfchar"@) == Some(w.len() as int) && find_text(
            w + "endbfchar"@ + "beginbfchar"@,
            "beginbfchar"@,
        ) == Some((w.len() + "endbfchar"@.len()) as int) && (t.len() == 0 || ("beginbfchar"@.len()
            <= t.len() && t.take("beginbfchar"@.len() as int) == "beginbfchar"@)) ==> bfchar_lines(
            "beginbfchar"@ + w + "endbfchar"@ + t,
        ) == tagged_lines(split_on(w, '\n')) + bfchar_lines(t),
        find_text(w + "endbfrange"@, "endbfrange"@) == Some(w.len() as int) && find_text(
            w + "endbfrange"@ + "beginbfrange"@,
            "beginbfrange"@,
        ) == Some((w.len() + "endbfrange"@.len()) as int) && (t.len() == 0 || ("beginbfrange"@.len()
            <= t.len() && t.take("beginbfrange"@.len() as int) == "beginbfrange"@)) ==> bfrange_lines(
            "beginbfrange"@ + w + "endbfrange"@ + t,
        ) == tagged_lines(split_on(w, '\n')) + bfrange_lines(t),
{
    reveal_strlit("beginbfchar");
    reveal_strlit("endbfchar");
    reveal_strlit("beginbfrange");
    reveal_strlit("endbfrange");
    if find_text(w + "endbfchar"@, "endbfchar"@) == Some(w.len() as int) && find_text(
        w + "endbfchar"@ + "beginbfchar"@,
        "beginbfchar"@,
    ) == Some((w.len() + "endbfchar"@.len()) as int) && (t.len() == 0 || ("beginbfchar"@.len()
        <= t.len() && t.take("beginbfchar"@.len() as int) == "beginbfchar"@)) {
        lemma_section_lines_prepend(w, t, "beginbfchar"@, "endbfchar"@);
    }
    if find_text(w + "endbfrange"@, "endbfrange"@) == Some(w.len() as int) && find_text(
        w + "endbfrange"@ + "beginbfrange"@,
        "beginbfrange"@,
    ) == Some((w.len() + "endbfrange"@.len()) as int) && (t.len() == 0 || ("beginbfrange"@.len()
        <= t.len() && t.take("beginbfrange"@.len() as int) == "beginbfrange"@)) {
        lemma_section_lines_prepend(w, t, "beginbfrange"@, "endbfrange"@);
    }
}

} // verus!
