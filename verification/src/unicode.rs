//! Hexadecimal numbers and UTF-16 text as PDF strings and CMaps write them.
use vstd::prelude::*;
use vstd::string::StringSliceAdditionalSpecFns;

verus! {

/// The value of one hexadecimal digit, either case.
pub open spec fn hex_digit(b: u8) -> Option<nat> {
    if 0x30 <= b <= 0x39 {
        Some((b - 0x30) as nat)
    } else if 0x61 <= b <= 0x66 {
        Some((b - 0x61 + 10) as nat)
    } else if 0x41 <= b <= 0x46 {
        Some((b - 0x41 + 10) as nat)
    } else {
        None
    }
}

/// The number that the hexadecimal digits `d` spell.
pub open spec fn hex_value(d: Seq<u8>) -> nat
    decreases d.len(),
{
    if d.len() == 0 {
        0
    } else {
        hex_value(d.drop_last()) * 16 + match hex_digit(d.last()) {
            Some(v) => v,
            None => 0,
        }
    }
}

/// `s` without one leading `+`.
pub open spec fn without_plus(s: Seq<u8>) -> Seq<u8> {
    if s.len() > 0 && s[0] == 0x2B {
        s.skip(1)
    } else {
        s
    }
}

/// std's `from_str_radix(s, 16)` for an unsigned type whose largest value
/// is `max`: an optional `+`, then one or more hexadecimal digits whose
/// value does not exceed `max`.
pub open spec fn parse_hex(s: Seq<u8>, max: nat) -> Option<nat> {
    let d = without_plus(s);
    if d.len() == 0 || !(forall|k: int| 0 <= k < d.len() ==> (#[trigger] hex_digit(d[k])) is Some) {
        None
    } else if hex_value(d) > max {
        None
    } else {
        Some(hex_value(d))
    }
}

proof fn lemma_hex_prefix_le(d: Seq<u8>, k: int)
    requires
        0 <= k <= d.len(),
    ensures
        hex_value(d.take(k)) <= hex_value(d),
    decreases d.len() - k,
{
    if k < d.len() {
        lemma_hex_prefix_le(d, k + 1);
        assert(d.take(k + 1).drop_last() =~= d.take(k));
    } else {
        assert(d.take(k) =~= d);
    }
}

fn hex_digit_exec(b: u8) -> (r: Option<u32>)
    ensures
        match hex_digit(b) {
            Some(v) => r == Some(v as u32),
            None => r is None,
        },
{
    if 0x30 <= b && b <= 0x39 {
        Some((b - 0x30) as u32)
    } else if 0x61 <= b && b <= 0x66 {
        Some((b - 0x61 + 10) as u32)
    } else if 0x41 <= b && b <= 0x46 {
        Some((b - 0x41 + 10) as u32)
    } else {
        None
    }
}

/// std's `from_str_radix(_, 16)` on the bytes `b[lo..hi]`, for a type
/// whose largest value is `max`.
pub fn parse_hex_range(b: &[u8], lo: usize, hi: usize, max: u32) -> (r: Option<u32>)
    requires
        lo <= hi <= b@.len(),
    ensures
        match parse_hex(b@.subrange(lo as int, hi as int), max as nat) {
            Some(v) => r == Some(v as u32),
            None => r is None,
        },
{
    let ghost s = b@.subrange(lo as int, hi as int);
    let start = if lo < hi && b[lo] == 0x2B {
        lo + 1
    } else {
        lo
    };
    let ghost d = without_plus(s);
    assert(d =~= b@.subrange(start as int, hi as int));
    if start == hi {
        return None;
    }
    let mut acc: u32 = 0;
    let mut i = start;
    while i < hi
        invariant
            start <= i <= hi <= b@.len(),
            d == b@.subrange(start as int, hi as int),
            d == without_plus(b@.subrange(lo as int, hi as int)),
            d.len() > 0,
            acc <= max,
            acc == hex_value(d.take(i - start)),
            forall|k: int| 0 <= k < i - start ==> (#[trigger] hex_digit(d[k])) is Some,
        decreases hi - i,
    {
        let v = match hex_digit_exec(b[i]) {
            Some(v) => v,
            None => {
                assert(hex_digit(d[i - start]) is None);
                return None;
            },
        };
        let ghost k = i - start;
        assert(d.take(k + 1).drop_last() =~= d.take(k));
        assert(d.take(k + 1).last() == d[k]);
        if v > max || acc > (max - v) / 16 {
            proof {
                assert forall|m: int| 0 <= m < k + 1 implies (#[trigger] hex_digit(d[m])) is Some by {
                    if m == k {
                        assert(d[m] == b@[i as int]);
                    }
                }
                lemma_hex_prefix_le(d, k + 1);
                assert(hex_value(d.take(k + 1)) == acc * 16 + v);
                assert(acc * 16 + v > max) by (nonlinear_arith)
                    requires
                        v > max || acc > (max - v) / 16,
                        v <= max ==> (max - v) / 16 * 16 + 16 > max - v,
                ;
            }
            return None;
        }
        assert(acc * 16 + v <= max) by (nonlinear_arith)
            requires
                acc <= (max - v) / 16,
                v <= max,
        ;
        acc = acc * 16 + v;
        i = i + 1;
    }
    assert(d.take(hi - start) =~= d);
    Some(acc)
}

pub open spec fn is_high_surrogate(u: u16) -> bool {
    0xD800 <= u <= 0xDBFF
}

pub open spec fn is_low_surrogate(u: u16) -> bool {
    0xDC00 <= u <= 0xDFFF
}

/// A Unicode scalar value: a code point that is no surrogate.
pub open spec fn is_scalar_value(u: u32) -> bool {
    u <= 0x10FFFF && !(0xD800 <= u <= 0xDFFF)
}

/// The character that a surrogate pair encodes.
pub open spec fn pair_scalar(hi: u16, lo: u16) -> u32 {
    (0x10000 + (hi - 0xD800) * 0x400 + (lo - 0xDC00)) as u32
}

/// UTF-16 decoding as `String::from_utf16_lossy` does it: surrogate pairs
/// make one character, every unpaired surrogate becomes U+FFFD.
pub open spec fn utf16_lossy(u: Seq<u16>) -> Seq<char>
    decreases u.len(),
{
    if u.len() == 0 {
        Seq::empty()
    } else if u.len() >= 2 && is_high_surrogate(u[0]) && is_low_surrogate(u[1]) {
        seq![pair_scalar(u[0], u[1]) as char] + utf16_lossy(u.skip(2))
    } else if is_high_surrogate(u[0]) || is_low_surrogate(u[0]) {
        seq!['\u{FFFD}'] + utf16_lossy(u.skip(1))
    } else {
        seq![(u[0] as u32) as char] + utf16_lossy(u.skip(1))
    }
}

/// `char::from_u32`: the character with scalar value `u`, `None` for a
/// surrogate or a value above U+10FFFF, as std documents.
#[verifier::external_body]
pub(crate) fn char_from_u32(u: u32) -> (r: Option<char>)
    ensures
        is_scalar_value(u) ==> r == Some(u as char),
        !is_scalar_value(u) ==> r is None,
{
    char::from_u32(u)
}

/// The characters that the UTF-16 code units `u` encode, each unpaired
/// surrogate replaced by U+FFFD.
pub fn utf16_decode_lossy(u: &Vec<u16>) -> (out: Vec<char>)
    ensures
        out@ == utf16_lossy(u@),
{
    let mut out: Vec<char> = Vec::new();
    let mut i: usize = 0;
    assert(u@.skip(0) =~= u@);
    while i < u.len()
        invariant
            i <= u.len(),
            out@ + utf16_lossy(u@.skip(i as int)) == utf16_lossy(u@),
        decreases u.len() - i,
    {
        let ghost rest = u@.skip(i as int);
        let a = u[i];
        if i + 1 < u.len() && 0xD800 <= a && a <= 0xDBFF && 0xDC00 <= u[i + 1] && u[i + 1] <= 0xDFFF {
            let b = u[i + 1];
            let cp: u32 = 0x10000 + ((a - 0xD800) as u32) * 0x400 + ((b - 0xDC00) as u32);
            assert(cp == pair_scalar(a, b));
            let c = match char_from_u32(cp) {
                Some(c) => c,
                None => '\u{FFFD}',
            };
            assert(rest.skip(2) =~= u@.skip(i + 2));
            assert(c == pair_scalar(a, b) as char);
            out.push(c);
            assert(out@ + utf16_lossy(u@.skip(i + 2)) =~= utf16_lossy(u@));
            i = i + 2;
        } else if 0xD800 <= a && a <= 0xDFFF {
            assert(rest.skip(1) =~= u@.skip(i + 1));
            out.push('\u{FFFD}');
            assert(out@ + utf16_lossy(u@.skip(i + 1)) =~= utf16_lossy(u@));
            i = i + 1;
        } else {
            let c = match char_from_u32(a as u32) {
                Some(c) => c,
                None => '\u{FFFD}',
            };
            assert(rest.skip(1) =~= u@.skip(i + 1));
            out.push(c);
            assert(out@ + utf16_lossy(u@.skip(i + 1)) =~= utf16_lossy(u@));
            i = i + 1;
        }
    }
    assert(u@.skip(i as int).len() == 0);
    assert(out@ =~= utf16_lossy(u@));
    out
}

/// Two hexadecimal characters never spell more than 0xFF.
pub proof fn lemma_two_digits_le_ff(s: Seq<u8>)
    requires
        s.len() == 2,
    ensures
        parse_hex(s, 0xFFFF) matches Some(v) ==> v <= 0xFF,
{
    let d = without_plus(s);
    if parse_hex(s, 0xFFFF) is Some {
        assert(hex_digit(d[0]) is Some);
        let d1 = d.drop_last();
        if d.len() == 2 {
            assert(hex_digit(d[1]) is Some);
            assert(d1.drop_last().len() == 0);
            assert(d1.last() == d[0]);
            assert(d.last() == d[1]);
            assert(hex_value(d1.drop_last()) == 0);
            let v0 = hex_digit(d[0])->0;
            let v1 = hex_digit(d[1])->0;
            assert(v0 <= 15 && v1 <= 15);
            assert(hex_value(d1) == v0);
            assert(hex_value(d) == v0 * 16 + v1);
        } else {
            assert(d.len() == 1);
            assert(d1.len() == 0);
            assert(hex_value(d1) == 0);
            assert(d.last() == d[0]);
        }
    }
}

/// The UTF-16 code units of one character.
pub open spec fn char_units(c: char) -> Seq<u16> {
    let u = c as u32;
    if u < 0x10000 {
        seq![u as u16]
    } else {
        let v = (u - 0x10000) as u32;
        seq![(0xD800 + v / 0x400) as u16, (0xDC00 + v % 0x400) as u16]
    }
}

/// `str::encode_utf16`: the UTF-16 code units of `s`.
pub open spec fn utf16_units(s: Seq<char>) -> Seq<u16>
    decreases s.len(),
{
    if s.len() == 0 {
        Seq::empty()
    } else {
        char_units(s[0]) + utf16_units(s.skip(1))
    }
}

/// The code units, each as two bytes, high byte first.
pub open spec fn units_be(u: Seq<u16>) -> Seq<u8>
    decreases u.len(),
{
    if u.len() == 0 {
        Seq::empty()
    } else {
        seq![(u[0] / 256) as u8, (u[0] % 256) as u8] + units_be(u.skip(1))
    }
}

/// The code units that bytes spell two at a time, high byte first; a last
/// odd byte is the high byte of a unit whose low byte is 0.
pub open spec fn be_units(b: Seq<u8>) -> Seq<u16>
    decreases b.len(),
{
    if b.len() == 0 {
        Seq::empty()
    } else if b.len() == 1 {
        seq![(b[0] * 256) as u16]
    } else {
        seq![(b[0] * 256 + b[1]) as u16] + be_units(b.skip(2))
    }
}

/// A PDF text string as a PDF writer stores text: the byte order mark
/// `FE FF`, then the UTF-16 code units high byte first.
pub open spec fn spec_pdf_text_bytes(s: Seq<char>) -> Seq<u8> {
    seq![0xFEu8, 0xFFu8] + units_be(utf16_units(s))
}

/// Each byte as the character of the same number (Latin-1).
pub open spec fn latin1(b: Seq<u8>) -> Seq<char> {
    b.map_values(|x: u8| (x as u32) as char)
}

/// How a PDF text string reads: after the byte order mark `FE FF`, UTF-16
/// high byte first (unpaired surrogates replaced); without it, UTF-8 where
/// the bytes are valid UTF-8, else Latin-1.
pub open spec fn spec_decode_pdf_string(b: Seq<u8>) -> Seq<char> {
    if b.len() >= 2 && b[0] == 0xFE && b[1] == 0xFF {
        utf16_lossy(be_units(b.skip(2)))
    } else if vstd::utf8::valid_utf8(b) {
        vstd::utf8::decode_utf8(b)
    } else {
        latin1(b)
    }
}

/// The text of a PDF string: UTF-16 (high byte first) after the byte order
/// mark `FE FF`; without it, UTF-8 where valid, else Latin-1.
pub fn decode_pdf_string(b: &[u8]) -> (s: String)
    ensures
        s@ == spec_decode_pdf_string(b@),
{
    if b.len() >= 2 && b[0] == 0xFE && b[1] == 0xFF {
        let mut units: Vec<u16> = Vec::new();
        let mut j: usize = 2;
        assert(units@ + be_units(b@.skip(2)) =~= be_units(b@.skip(2)));
        while j < b.len()
            invariant
                2 <= j <= b.len(),
                units@ + be_units(b@.skip(j as int)) == be_units(b@.skip(2)),
            decreases b.len() - j,
        {
            let ghost before = units@;
            if j + 1 < b.len() {
                units.push((b[j] as u16) * 256 + (b[j + 1] as u16));
                assert(b@.skip(j as int).skip(2) =~= b@.skip(j + 2));
                assert(units@ + be_units(b@.skip(j + 2)) =~= before + be_units(b@.skip(j as int)));
                j = j + 2;
            } else {
                units.push((b[j] as u16) * 256);
                assert(b@.skip(j + 1).len() == 0);
                assert(units@ + be_units(b@.skip(j + 1)) =~= before + be_units(b@.skip(j as int)));
                j = j + 1;
            }
        }
        assert(b@.skip(j as int).len() == 0);
        assert(units@ =~= be_units(b@.skip(2)));
        let chars = utf16_decode_lossy(&units);
        crate::chars::string_of(&chars)
    } else {
        match crate::decode::utf8_text(b) {
            Some(t) => t,
            None => {
                let mut out: Vec<char> = Vec::new();
                let mut i: usize = 0;
                while i < b.len()
                    invariant
                        i <= b.len(),
                        out@ == latin1(b@.take(i as int)),
                    decreases b.len() - i,
                {
                    out.push(b[i] as char);
                    i = i + 1;
                    assert(out@ =~= latin1(b@.take(i as int)));
                }
                assert(b@.take(b.len() as int) =~= b@);
                crate::chars::string_of(&out)
            },
        }
    }
}

/// The bytes of `s` as a PDF text string: the byte order mark `FE FF`,
/// then UTF-16 high byte first.
pub fn pdf_text_bytes(s: &str) -> (b: Vec<u8>)
    ensures
        b@ == spec_pdf_text_bytes(s@),
{
    let v = crate::chars::chars_of(s);
    let mut out: Vec<u8> = Vec::new();
    out.push(0xFE);
    out.push(0xFF);
    let mut i: usize = 0;
    assert(v@.skip(0) =~= v@);
    while i < v.len()
        invariant
            i <= v.len(),
            out@ + units_be(utf16_units(v@.skip(i as int))) == spec_pdf_text_bytes(v@),
        decreases v.len() - i,
    {
        let c = v[i];
        let u = c as u32;
        let ghost rest = v@.skip(i as int);
        assert(rest[0] == c);
        assert(rest.skip(1) =~= v@.skip(i + 1));
        let ghost before = out@;
        let ghost tail = utf16_units(v@.skip(i + 1));
        if u < 0x10000 {
            let w = u as u16;
            out.push((w / 256) as u8);
            out.push((w % 256) as u8);
            assert(char_units(c) == seq![w]);
            assert(units_be(seq![w] + tail).skip(0) == units_be(seq![w] + tail));
            assert((seq![w] + tail).skip(1) =~= tail);
            assert(out@ + units_be(tail) =~= before + units_be(seq![w] + tail));
        } else {
            proof {
                vstd::utf8::char_is_scalar(c);
            }
            let x = u - 0x10000;
            let hi: u16 = (0xD800 + x / 0x400) as u16;
            let lo: u16 = (0xDC00 + x % 0x400) as u16;
            out.push((hi / 256) as u8);
            out.push((hi % 256) as u8);
            out.push((lo / 256) as u8);
            out.push((lo % 256) as u8);
            assert(char_units(c) == seq![hi, lo]);
            assert((seq![hi, lo] + tail).skip(1) =~= seq![lo] + tail);
            assert((seq![lo] + tail).skip(1) =~= tail);
            assert(units_be(seq![lo] + tail) == seq![(lo / 256) as u8, (lo % 256) as u8] + units_be(
                tail,
            ));
            assert(units_be(seq![hi, lo] + tail) == seq![(hi / 256) as u8, (hi % 256) as u8]
                + units_be(seq![lo] + tail));
            assert(out@ + units_be(tail) =~= before + units_be(seq![hi, lo] + tail));
        }
        i = i + 1;
    }
    assert(v@.skip(i as int).len() == 0);
    assert(out@ =~= spec_pdf_text_bytes(v@));
    out
}

proof fn lemma_be_units_roundtrip(u: Seq<u16>)
    ensures
        be_units(units_be(u)) == u,
    decreases u.len(),
{
    if u.len() > 0 {
        lemma_be_units_roundtrip(u.skip(1));
        let b = units_be(u);
        assert(b.skip(2) =~= units_be(u.skip(1)));
        assert(b[0] * 256 + b[1] == u[0]);
        assert(be_units(b) =~= u);
    } else {
        assert(units_be(u).len() == 0);
    }
}

proof fn lemma_utf16_roundtrip(s: Seq<char>)
    ensures
        utf16_lossy(utf16_units(s)) == s,
    decreases s.len(),
{
    if s.len() > 0 {
        lemma_utf16_roundtrip(s.skip(1));
        let c = s[0];
        let u = c as u32;
        vstd::utf8::char_is_scalar(c);
        let all = utf16_units(s);
        let tail = utf16_units(s.skip(1));
        assert(all == char_units(c) + tail);
        if u < 0x10000 {
            assert(all.skip(1) =~= tail);
            assert(all[0] == u as u16);
            assert(((u as u16) as u32) as char == c) by {
                vstd::utf8::char_u32_cast(c, u);
            }
            assert(utf16_lossy(all) =~= seq![c] + s.skip(1));
        } else {
            let v = (u - 0x10000) as u32;
            assert(v <= 0xFFFFF);
            assert(v / 0x400 <= 0x3FF);
            assert(all.skip(2) =~= tail);
            let h = all[0];
            let l = all[1];
            assert(h == 0xD800 + v / 0x400);
            assert(l == 0xDC00 + v % 0x400);
            assert(pair_scalar(h, l) == u) by {
                assert((v / 0x400) * 0x400 + v % 0x400 == v);
            }
            assert((u as char) == c) by {
                vstd::utf8::char_u32_cast(c, u);
            }
            assert(utf16_lossy(all) =~= seq![c] + s.skip(1));
        }
        assert(seq![c] + s.skip(1) =~= s);
    }
}

/// A title written as a PDF text string reads back as the same title.
pub proof fn lemma_pdf_text_roundtrip(s: Seq<char>)
    ensures
        spec_decode_pdf_string(spec_pdf_text_bytes(s)) == s,
{
    let b = spec_pdf_text_bytes(s);
    assert(b.skip(2) =~= units_be(utf16_units(s)));
    lemma_be_units_roundtrip(utf16_units(s));
    lemma_utf16_roundtrip(s);
}

/// The hexadecimal digits `0`–`9`, `a`–`f` (`upper`: `A`–`F`), as bytes.
pub open spec fn hex_digit_table(upper: bool) -> Seq<u8> {
    if upper {
        "0123456789ABCDEF".spec_bytes()
    } else {
        "0123456789abcdef".spec_bytes()
    }
}

/// The four-digit hexadecimal text of a 16-bit value, high digit first.
pub open spec fn hex4_text(v: u16, upper: bool) -> Seq<u8> {
    let t = hex_digit_table(upper);
    seq![t[v as int / 4096], t[(v as int / 256) % 16], t[(v as int / 16) % 16], t[v as int % 16]]
}

proof fn lemma_hex_digit_table(upper: bool, k: int)
    requires
        0 <= k < 16,
    ensures
        hex_digit(hex_digit_table(upper)[k]) == Some(k as nat),
        hex_digit_table(upper)[k] != 0x2B,
{
    reveal_strlit("0123456789ABCDEF");
    reveal_strlit("0123456789abcdef");
    vstd::string::is_ascii_spec_bytes("0123456789ABCDEF");
    vstd::string::is_ascii_spec_bytes("0123456789abcdef");
    assert(vstd::string::is_ascii("0123456789ABCDEF"));
    assert(vstd::string::is_ascii("0123456789abcdef"));
    assert(hex_digit_table(false) =~= seq![48u8, 49, 50, 51, 52, 53, 54, 55, 56, 57, 97, 98, 99, 100, 101, 102]);
    assert(hex_digit_table(true) =~= seq![48u8, 49, 50, 51, 52, 53, 54, 55, 56, 57, 65, 66, 67, 68, 69, 70]);
}

/// Hexadecimal numbers read in either case: the four digits of any 16-bit
/// value, lower-case or upper-case, read back as that value (so `004a` and
/// `004A` are both U+004A).
pub proof fn lemma_parse_hex_four_digits(v: u16, upper: bool)
    ensures
        parse_hex(hex4_text(v, upper), 0xFFFF) == Some(v as nat),
{
    let t = hex4_text(v, upper);
    let a = v as int / 4096;
    let b = (v as int / 256) % 16;
    let c = (v as int / 16) % 16;
    let e = v as int % 16;
    lemma_hex_digit_table(upper, a);
    lemma_hex_digit_table(upper, b);
    lemma_hex_digit_table(upper, c);
    lemma_hex_digit_table(upper, e);
    assert(without_plus(t) == t);
    assert forall|k: int| 0 <= k < t.len() implies (#[trigger] hex_digit(t[k])) is Some by {}
    assert(t.drop_last().drop_last().drop_last().drop_last() =~= Seq::<u8>::empty());
    assert(t.drop_last().drop_last().drop_last() =~= seq![t[0]]);
    assert(t.drop_last().drop_last() =~= seq![t[0], t[1]]);
    assert(t.drop_last() =~= seq![t[0], t[1], t[2]]);
    assert(t[0] == hex_digit_table(upper)[a]);
    assert(t[1] == hex_digit_table(upper)[b]);
    assert(t[2] == hex_digit_table(upper)[c]);
    assert(t[3] == hex_digit_table(upper)[e]);
    assert(seq![t[0]].drop_last() =~= Seq::<u8>::empty());
    assert(hex_value(Seq::<u8>::empty()) == 0);
    assert(seq![t[0], t[1]].drop_last() =~= seq![t[0]]);
    assert(seq![t[0], t[1], t[2]].drop_last() =~= seq![t[0], t[1]]);
    assert(hex_value(seq![t[0]]) == a);
    assert(hex_value(seq![t[0], t[1]]) == a * 16 + b);
    assert(hex_value(seq![t[0], t[1], t[2]]) == (a * 16 + b) * 16 + c);
    assert(hex_value(t) == ((a * 16 + b) * 16 + c) * 16 + e);
    assert(((a * 16 + b) * 16 + c) * 16 + e == v) by (nonlinear_arith)
        requires
            a == v as int / 4096,
            b == (v as int / 256) % 16,
            c == (v as int / 16) % 16,
            e == v as int % 16,
            0 <= v < 65536,
    ;
}

} // verus!
