//! Content-stream search patterns and the blocks they select.
use vstd::prelude::*;
use vstd::string::StringSliceAdditionalSpecFns;
use vstd::utf8::encode_utf8;
use crate::chars::{chars_of, string_of};
use crate::content::{code_at, codes_match, is_text_show, op_codes, ContentOp, OpCode};
use crate::keywords::{contains_bytes, contains_seq};
use crate::text::{is_ws, split_chars, split_on, seq_views, trim, trim_chars};

verus! {

/// Whether `b` is an ASCII hexadecimal digit.
pub open spec fn is_hex_digit(b: u8) -> bool {
    (48 <= b <= 57) || (65 <= b <= 70) || (97 <= b <= 102)
}

pub open spec fn hex_value(b: u8) -> u8 {
    if 48 <= b <= 57 {
        (b - 48) as u8
    } else if 65 <= b <= 70 {
        (b - 55) as u8
    } else {
        (b - 87) as u8
    }
}

/// std's reading of two bytes as a hexadecimal `u8`: two hex digits, or a
/// `+` and one hex digit.
pub open spec fn pair_value(b0: u8, b1: u8) -> Option<u8> {
    if is_hex_digit(b0) && is_hex_digit(b1) {
        Some((hex_value(b0) * 16 + hex_value(b1)) as u8)
    } else if b0 == 43 && is_hex_digit(b1) {
        Some(hex_value(b1))
    } else {
        None
    }
}

/// A UTF-8 continuation byte: never the first byte of a character.
pub open spec fn is_continuation(b: u8) -> bool {
    128 <= b <= 191
}

/// Decoding the pairs of `b` from position `i` on: the bytes, `None` for a
/// pair that is not hexadecimal. `panics` says that the pair at the first
/// failure would be cut in the middle of a UTF-8 character.
pub open spec fn hex_pairs(b: Seq<u8>, i: int) -> (Option<Seq<u8>>, bool)
    decreases b.len() - i,
{
    if i < 0 || i + 1 >= b.len() {
        (Some(Seq::empty()), false)
    } else if i + 2 < b.len() && is_continuation(b[i + 2]) {
        (None, true)
    } else {
        match pair_value(b[i], b[i + 1]) {
            None => (None, false),
            Some(v) => {
                let r = hex_pairs(b, i + 2);
                match r.0 {
                    Some(rest) => (Some(seq![v] + rest), r.1),
                    None => r,
                }
            },
        }
    }
}

/// The bytes that the hexadecimal text `b` spells; `None` for an odd length
/// or a pair that is not hexadecimal.
pub open spec fn spec_hex_decode(b: Seq<u8>) -> Option<Seq<u8>> {
    if b.len() % 2 != 0 {
        None
    } else {
        hex_pairs(b, 0).0
    }
}

/// Decoding would slice the text in the middle of a character.
pub open spec fn hex_decode_panics(b: Seq<u8>) -> bool {
    b.len() % 2 == 0 && hex_pairs(b, 0).1
}

/// The hexadecimal digits `0`–`9` and `a`–`f` (`upper`: `A`–`F`), as bytes.
pub open spec fn hex_digit_bytes(upper: bool) -> Seq<u8> {
    if upper {
        "0123456789ABCDEF".spec_bytes()
    } else {
        "0123456789abcdef".spec_bytes()
    }
}

/// The hexadecimal text of the bytes `v`: two digits for each byte, the
/// high one first, in lower or upper case.
pub open spec fn hex_encoding(v: Seq<u8>, upper: bool) -> Seq<u8>
    decreases v.len(),
{
    if v.len() == 0 {
        Seq::empty()
    } else {
        seq![hex_digit_bytes(upper)[v[0] as int / 16], hex_digit_bytes(upper)[v[0] as int % 16]] + hex_encoding(
            v.drop_first(),
            upper,
        )
    }
}

/// The digit tables, spelled out.
proof fn lemma_hex_digit_bytes()
    ensures
        hex_digit_bytes(false) == seq![48u8, 49, 50, 51, 52, 53, 54, 55, 56, 57, 97, 98, 99, 100, 101, 102],
        hex_digit_bytes(true) == seq![48u8, 49, 50, 51, 52, 53, 54, 55, 56, 57, 65, 66, 67, 68, 69, 70],
{
    reveal_strlit("0123456789ABCDEF");
    reveal_strlit("0123456789abcdef");
    vstd::string::is_ascii_spec_bytes("0123456789ABCDEF");
    vstd::string::is_ascii_spec_bytes("0123456789abcdef");
    assert(vstd::string::is_ascii("0123456789ABCDEF"));
    assert(vstd::string::is_ascii("0123456789abcdef"));
    assert(hex_digit_bytes(false) =~= seq![48u8, 49, 50, 51, 52, 53, 54, 55, 56, 57, 97, 98, 99, 100, 101, 102]);
    assert(hex_digit_bytes(true) =~= seq![48u8, 49, 50, 51, 52, 53, 54, 55, 56, 57, 65, 66, 67, 68, 69, 70]);
}

/// Each digit reads as its value.
proof fn lemma_hex_digit_reads(upper: bool, k: int)
    requires
        0 <= k < 16,
    ensures
        is_hex_digit(hex_digit_bytes(upper)[k]),
        hex_value(hex_digit_bytes(upper)[k]) == k,
        !is_continuation(hex_digit_bytes(upper)[k]),
{
    lemma_hex_digit_bytes();
}

/// Reading pairs from position `i + p.len()` of `p + q` reads `q` from `i`.
proof fn lemma_hex_pairs_shift(p: Seq<u8>, q: Seq<u8>, i: int)
    requires
        0 <= i,
    ensures
        hex_pairs(p + q, i + p.len()) == hex_pairs(q, i),
    decreases q.len() - i,
{
    let b = p + q;
    let j = i + p.len();
    if !(j + 1 >= b.len()) {
        assert(b[j] == q[i]);
        assert(b[j + 1] == q[i + 1]);
        if j + 2 < b.len() {
            assert(b[j + 2] == q[i + 2]);
        }
        lemma_hex_pairs_shift(p, q, i + 2);
    }
}

/// Hexadecimal text in either case decodes back to the bytes it was written
/// from.
proof fn lemma_hex_text_pairs(v: Seq<u8>, upper: bool)
    ensures
        hex_pairs(hex_encoding(v, upper), 0) == (Some(v), false),
        hex_encoding(v, upper).len() == 2 * v.len(),
    decreases v.len(),
{
    if v.len() > 0 {
        let x = v[0];
        let hi = hex_digit_bytes(upper)[x as int / 16];
        let lo = hex_digit_bytes(upper)[x as int % 16];
        lemma_hex_digit_reads(upper, x as int / 16);
        lemma_hex_digit_reads(upper, x as int % 16);
        lemma_hex_text_pairs(v.drop_first(), upper);
        let rest = hex_encoding(v.drop_first(), upper);
        let t = hex_encoding(v, upper);
        assert(t == seq![hi, lo] + rest);
        lemma_hex_pairs_shift(seq![hi, lo], rest, 0);
        assert(hex_pairs(t, 2) == hex_pairs(rest, 0));
        if rest.len() > 0 {
            lemma_hex_text_first(v.drop_first(), upper);
            assert(t[2] == rest[0]);
        }
        assert((x / 16) * 16 + x % 16 == x);
        assert(pair_value(hi, lo) == Some(x));
        assert(seq![x] + v.drop_first() =~= v);
    }
}

/// The first byte of a non-empty hex text is a digit.
proof fn lemma_hex_text_first(v: Seq<u8>, upper: bool)
    requires
        v.len() > 0,
    ensures
        !is_continuation(hex_encoding(v, upper)[0]),
{
    lemma_hex_digit_reads(upper, v[0] as int / 16);
}

/// Hexadecimal decoding inverts hexadecimal encoding and ignores case: the
/// lower-case and the upper-case text of any bytes `v` both decode to `v`
/// (so `4a4b` and `4A4B` both give the bytes `J`, `K`), and neither makes
/// decoding panic.
pub proof fn lemma_hex_decode_inverts(v: Seq<u8>)
    ensures
        spec_hex_decode(hex_encoding(v, false)) == Some(v),
        spec_hex_decode(hex_encoding(v, true)) == Some(v),
        !hex_decode_panics(hex_encoding(v, false)),
        !hex_decode_panics(hex_encoding(v, true)),
{
    lemma_hex_text_pairs(v, false);
    lemma_hex_text_pairs(v, true);
}

fn hex_digit_value(b: u8) -> (r: Option<u8>)
    ensures
        is_hex_digit(b) ==> r == Some(hex_value(b)),
        !is_hex_digit(b) ==> r is None,
{
    if 48 <= b && b <= 57 {
        Some(b - 48)
    } else if 65 <= b && b <= 70 {
        Some(b - 55)
    } else if 97 <= b && b <= 102 {
        Some(b - 87)
    } else {
        None
    }
}

fn pair_value_exec(b0: u8, b1: u8) -> (r: Option<u8>)
    ensures
        r == pair_value(b0, b1),
{
    match (hex_digit_value(b0), hex_digit_value(b1)) {
        (Some(h), Some(l)) => Some(h * 16 + l),
        (None, Some(l)) => if b0 == 43 {
            Some(l)
        } else {
            None
        },
        _ => None,
    }
}

/// The bytes that the hexadecimal text `hex` spells (the UTF-8 bytes of the
/// text are given): `None` for an odd length or a pair that is not two hex
/// digits (std also reads `+` and a digit as a pair).
pub fn hex_decode(hex: &[u8]) -> (r: Option<Vec<u8>>)
    requires
        !hex_decode_panics(hex@),
    ensures
        match spec_hex_decode(hex@) {
            Some(v) => r matches Some(w) && w@ == v,
            None => r is None,
        },
{
    if hex.len() % 2 != 0 {
        return None;
    }
    let mut out: Vec<u8> = Vec::new();
    let mut i: usize = 0;
    assert(out@ + hex_pairs(hex@, 0).0->0 == hex_pairs(hex@, 0).0->0 || hex_pairs(hex@, 0).0 is None)
        by {
        if hex_pairs(hex@, 0).0 is Some {
            assert(out@ + hex_pairs(hex@, 0).0->0 =~= hex_pairs(hex@, 0).0->0);
        }
    }
    while i < hex.len()
        invariant
            hex.len() % 2 == 0,
            i % 2 == 0,
            i <= hex.len(),
            !hex_pairs(hex@, 0).1,
            hex_pairs(hex@, i as int).1 == hex_pairs(hex@, 0).1,
            hex_pairs(hex@, i as int).0 is None ==> hex_pairs(hex@, 0).0 is None,
            hex_pairs(hex@, i as int).0 is Some ==> hex_pairs(hex@, 0).0 is Some && out@
                + hex_pairs(hex@, i as int).0->0 == hex_pairs(hex@, 0).0->0,
        decreases hex.len() - i,
    {
        match pair_value_exec(hex[i], hex[i + 1]) {
            None => {
                assert(!(i + 2 < hex.len() && is_continuation(hex@[i + 2])));
                return None;
            },
            Some(v) => {
                let ghost before = out@;
                out.push(v);
                proof {
                    if hex_pairs(hex@, i + 2).0 is Some {
                        assert(before + (seq![v] + hex_pairs(hex@, i + 2).0->0) =~= out@
                            + hex_pairs(hex@, i + 2).0->0);
                    }
                }
                i = i + 2;
            },
        }
    }
    assert(out@ + Seq::<u8>::empty() =~= out@);
    Some(out)
}

/// Whether the text `b` would make decoding panic.
pub fn hex_decode_would_panic(b: &[u8]) -> (r: bool)
    ensures
        r == hex_decode_panics(b@),
{
    if b.len() % 2 != 0 {
        return false;
    }
    let mut i: usize = 0;
    while i < b.len()
        invariant
            b.len() % 2 == 0,
            i % 2 == 0,
            i <= b.len(),
            hex_pairs(b@, i as int).1 == hex_pairs(b@, 0).1,
        decreases b.len() - i,
    {
        if i + 2 < b.len() && 128 <= b[i + 2] && b[i + 2] <= 191 {
            return true;
        }
        if pair_value_exec(b[i], b[i + 1]).is_none() {
            return false;
        }
        i = i + 2;
    }
    false
}

/// Glob matching: `*` matches any run of characters, `?` any one character,
/// every other character itself.
pub open spec fn glob(p: Seq<char>, t: Seq<char>) -> bool
    decreases p.len() + t.len(),
{
    if p.len() == 0 {
        t.len() == 0
    } else if p.last() == '*' {
        glob(p.drop_last(), t) || (t.len() > 0 && glob(p, t.drop_last()))
    } else if t.len() == 0 {
        false
    } else if p.last() == '?' {
        glob(p.drop_last(), t.drop_last())
    } else {
        p.last() == t.last() && glob(p.drop_last(), t.drop_last())
    }
}

/// Whether `text` matches the glob `pattern` (`*` and `?`).
pub fn glob_match(pattern: &str, text: &str) -> (r: bool)
    ensures
        r == glob(pattern@, text@),
{
    let p = chars_of(pattern);
    let t = chars_of(text);
    let m = p.len();
    let n = t.len();
    // row for the empty pattern
    let mut prev: Vec<bool> = Vec::new();
    prev.push(true);
    let mut j: usize = 0;
    while j < n
        invariant
            n == t.len(),
            j <= n,
            prev.len() == j + 1,
            forall|k: int| 0 <= k <= j ==> prev@[k] == glob(p@.take(0), t@.take(k)),
        decreases n - j,
    {
        prev.push(false);
        j = j + 1;
    }
    let mut i: usize = 0;
    while i < m
        invariant
            m == p.len(),
            n == t.len(),
            i <= m,
            prev.len() == n + 1,
            forall|k: int| 0 <= k <= n ==> prev@[k] == glob(p@.take(i as int), t@.take(k)),
        decreases m - i,
    {
        let pc = p[i];
        let ghost pi = p@.take(i + 1);
        assert(pi.drop_last() =~= p@.take(i as int));
        assert(pi.last() == pc);
        let mut cur: Vec<bool> = Vec::new();
        assert(t@.take(0).len() == 0);
        cur.push(pc == '*' && prev[0]);
        let mut j: usize = 0;
        while j < n
            invariant
                m == p.len(),
                n == t.len(),
                i < m,
                j <= n,
                pi == p@.take(i + 1),
                pi.drop_last() == p@.take(i as int),
                pi.last() == pc,
                prev.len() == n + 1,
                forall|k: int| 0 <= k <= n ==> prev@[k] == glob(p@.take(i as int), t@.take(k)),
                cur.len() == j + 1,
                forall|k: int| 0 <= k <= j ==> cur@[k] == glob(pi, t@.take(k)),
            decreases n - j,
        {
            let tc = t[j];
            assert(t@.take(j + 1).drop_last() =~= t@.take(j as int));
            assert(t@.take(j + 1).last() == tc);
            let v = if pc == '*' {
                prev[j + 1] || cur[j]
            } else if pc == '?' {
                prev[j]
            } else {
                prev[j] && pc == tc
            };
            cur.push(v);
            j = j + 1;
        }
        prev = cur;
        i = i + 1;
    }
    assert(p@.take(m as int) =~= p@);
    assert(t@.take(n as int) =~= t@);
    prev[n]
}

/// Whether `needle` occurs in `haystack`; an empty needle always does.
pub fn bytes_contain(haystack: &[u8], needle: &[u8]) -> (r: bool)
    ensures
        r == contains_seq(haystack@, needle@),
{
    contains_bytes(haystack, needle)
}

/// A content-stream search pattern.
#[derive(Debug, Clone)]
pub enum SearchPattern {
    /// Text-showing operations with a string operand that contains these bytes.
    Bytes(Vec<u8>),
    /// Operations with this operator whose name operand matches the glob.
    Operator(String, String),
}

/// Whether `c` is an ASCII letter.
pub open spec fn is_ascii_alpha(c: char) -> bool {
    ('a' <= c <= 'z') || ('A' <= c <= 'Z')
}

/// The index of the last space in `s`.
pub open spec fn last_space(s: Seq<char>) -> Option<int>
    decreases s.len(),
{
    if s.len() == 0 {
        None
    } else if s.last() == ' ' {
        Some(s.len() - 1)
    } else {
        last_space(s.drop_last())
    }
}

/// `s` read as `/Name Op`: the glob after the slash and the operator.
pub open spec fn operator_form(s: Seq<char>) -> Option<(Seq<char>, Seq<char>)> {
    match last_space(s) {
        None => None,
        Some(sp) => {
            let name_part = trim(s.take(sp));
            let op_part = trim(s.skip(sp + 1));
            if name_part.len() > 1 && name_part[0] == '/' && op_part.len() > 0 && (forall|k: int|
                0 <= k < op_part.len() ==> is_ascii_alpha(#[trigger] op_part[k])) {
                Some((name_part.skip(1), op_part))
            } else {
                None
            }
        },
    }
}

/// The text after a `0x` or `0X` prefix (the whole text where there is none).
pub open spec fn hex_text(b: Seq<u8>) -> Seq<u8> {
    if b.len() >= 2 && b[0] == 48 && (b[1] == 120 || b[1] == 88) {
        b.skip(2)
    } else {
        b
    }
}

/// Parsing the single pattern `s` would panic.
pub open spec fn pattern_panics(s: Seq<char>) -> bool {
    operator_form(s) is None && hex_decode_panics(hex_text(encode_utf8(s)))
}

/// The pattern that the text `s` stands for, given as view: `Some((name,
/// op))` for an operator pattern, else `None` and the needle bytes.
pub open spec fn spec_pattern(s: Seq<char>) -> (Option<(Seq<char>, Seq<char>)>, Seq<u8>) {
    match operator_form(s) {
        Some(f) => (Some(f), Seq::empty()),
        None => match spec_hex_decode(hex_text(encode_utf8(s))) {
            Some(v) => (None, v),
            None => (None, encode_utf8(s)),
        },
    }
}

pub open spec fn pattern_view(p: SearchPattern) -> (Option<(Seq<char>, Seq<char>)>, Seq<u8>) {
    match p {
        SearchPattern::Operator(n, o) => (Some((n@, o@)), Seq::empty()),
        SearchPattern::Bytes(b) => (None, b@),
    }
}

fn last_space_exec(v: &Vec<char>) -> (r: Option<usize>)
    ensures
        match last_space(v@) {
            Some(k) => r == Some(k as usize) && 0 <= k < v.len(),
            None => r is None,
        },
{
    let mut i = v.len();
    assert(v@.take(i as int) =~= v@);
    while i > 0
        invariant
            i <= v.len(),
            last_space(v@) == last_space(v@.take(i as int)),
        decreases i,
    {
        assert(v@.take(i as int).drop_last() =~= v@.take(i - 1));
        if v[i - 1] == ' ' {
            return Some(i - 1);
        }
        i = i - 1;
    }
    None
}

fn sub_chars(v: &Vec<char>, a: usize, b: usize) -> (r: Vec<char>)
    requires
        a <= b <= v.len(),
    ensures
        r@ == v@.subrange(a as int, b as int),
{
    let mut r: Vec<char> = Vec::new();
    let mut k = a;
    while k < b
        invariant
            a <= k <= b <= v.len(),
            r@ == v@.subrange(a as int, k as int),
        decreases b - k,
    {
        r.push(v[k]);
        k = k + 1;
        assert(r@ =~= v@.subrange(a as int, k as int));
    }
    r
}

fn all_ascii_alpha(v: &Vec<char>) -> (r: bool)
    ensures
        r == forall|k: int| 0 <= k < v.len() ==> is_ascii_alpha(#[trigger] v@[k]),
{
    let mut k: usize = 0;
    while k < v.len()
        invariant
            k <= v.len(),
            forall|j: int| 0 <= j < k ==> is_ascii_alpha(#[trigger] v@[j]),
        decreases v.len() - k,
    {
        let c = v[k];
        if !(('a' <= c && c <= 'z') || ('A' <= c && c <= 'Z')) {
            return false;
        }
        k = k + 1;
    }
    true
}

fn operator_form_exec(s: &Vec<char>) -> (r: Option<(String, String)>)
    ensures
        match operator_form(s@) {
            Some(f) => r matches Some(p) && p.0@ == f.0 && p.1@ == f.1,
            None => r is None,
        },
{
    match last_space_exec(s) {
        None => None,
        Some(sp) => {
            assert(s@.subrange(0, sp as int) =~= s@.take(sp as int));
            assert(s@.subrange(sp + 1, s@.len() as int) =~= s@.skip(sp + 1));
            let name_part = trim_chars(&sub_chars(s, 0, sp));
            let op_part = trim_chars(&sub_chars(s, sp + 1, s.len()));
            if name_part.len() > 1 && name_part[0] == '/' && op_part.len() > 0 && all_ascii_alpha(
                &op_part,
            ) {
                let n = sub_chars(&name_part, 1, name_part.len());
                assert(name_part@.subrange(1, name_part@.len() as int) =~= name_part@.skip(1));
                Some((string_of(&n), string_of(&op_part)))
            } else {
                None
            }
        },
    }
}

fn slice_to_vec(b: &[u8], from: usize) -> (r: Vec<u8>)
    requires
        from <= b.len(),
    ensures
        r@ == b@.skip(from as int),
{
    let mut r: Vec<u8> = Vec::new();
    let mut k = from;
    while k < b.len()
        invariant
            from <= k <= b.len(),
            r@ == b@.subrange(from as int, k as int),
        decreases b.len() - k,
    {
        r.push(b[k]);
        k = k + 1;
        assert(r@ =~= b@.subrange(from as int, k as int));
    }
    assert(b@.subrange(from as int, b.len() as int) =~= b@.skip(from as int));
    r
}

/// The pattern that one piece of a search specification stands for:
/// `/Name Op` (an operator of ASCII letters after the last space) selects
/// operations `Op` whose name operand matches the glob `Name`; any other
/// text is hexadecimal bytes (after an optional `0x`), or failing that its
/// own UTF-8 bytes, to be found in the strings that text operations show.
pub fn parse_single_pattern(s: &str) -> (r: SearchPattern)
    requires
        !pattern_panics(s@),
    ensures
        pattern_view(r) == spec_pattern(s@),
{
    let c = chars_of(s);
    match operator_form_exec(&c) {
        Some((n, o)) => SearchPattern::Operator(n, o),
        None => {
            let b = s.as_bytes();
            let from: usize = if b.len() >= 2 && b[0] == 48 && (b[1] == 120 || b[1] == 88) {
                2
            } else {
                0
            };
            let h = slice_to_vec(b, from);
            assert(h@ == hex_text(encode_utf8(s@))) by {
                if from == 0 {
                    assert(b@.skip(0) =~= b@);
                }
            }
            match hex_decode(h.as_slice()) {
                Some(v) => SearchPattern::Bytes(v),
                None => SearchPattern::Bytes(slice_to_vec(b, 0)),
            }
        },
    }
}

/// The trimmed, non-empty pieces of `parts`.
pub open spec fn nonempty_trimmed(parts: Seq<Seq<char>>) -> Seq<Seq<char>>
    decreases parts.len(),
{
    if parts.len() == 0 {
        Seq::empty()
    } else {
        let rest = nonempty_trimmed(parts.drop_last());
        let t = trim(parts.last());
        if t.len() > 0 {
            rest.push(t)
        } else {
            rest
        }
    }
}

/// The pattern texts of a search specification: its `|`-separated pieces,
/// trimmed, empty ones left out.
pub open spec fn pattern_texts(s: Seq<char>) -> Seq<Seq<char>> {
    nonempty_trimmed(split_on(s, '|'))
}

/// Parsing the specification `s` would panic on one of its patterns.
pub open spec fn patterns_panic(s: Seq<char>) -> bool {
    exists|k: int| 0 <= k < pattern_texts(s).len() && #[trigger] pattern_panics(pattern_texts(s)[k])
}

/// Whether parsing the search specification `s` would panic.
pub fn search_patterns_would_panic(s: &str) -> (r: bool)
    ensures
        r == patterns_panic(s@),
{
    let parts = split_chars(&chars_of(s), '|');
    let ghost ps = seq_views(parts@);
    let ghost texts = pattern_texts(s@);
    let mut i: usize = 0;
    let mut found = false;
    while i < parts.len()
        invariant
            i <= parts.len(),
            ps == seq_views(parts@),
            ps == split_on(s@, '|'),
            found == exists|k: int|
                0 <= k < nonempty_trimmed(ps.take(i as int)).len() && #[trigger] pattern_panics(
                    nonempty_trimmed(ps.take(i as int))[k],
                ),
        decreases parts.len() - i,
    {
        let ghost before = nonempty_trimmed(ps.take(i as int));
        assert(ps.take(i + 1).drop_last() =~= ps.take(i as int));
        assert(ps.take(i + 1).last() == parts@[i as int]@);
        let t = trim_chars(&parts[i]);
        if t.len() > 0 {
            let st = string_of(&t);
            let b = st.as_str().as_bytes();
            let from: usize = if b.len() >= 2 && b[0] == 48 && (b[1] == 120 || b[1] == 88) {
                2
            } else {
                0
            };
            let h = slice_to_vec(b, from);
            assert(h@ == hex_text(encode_utf8(t@))) by {
                if from == 0 {
                    assert(b@.skip(0) =~= b@);
                }
            }
            let p = operator_form_exec(&t).is_none() && hex_decode_would_panic(h.as_slice());
            let ghost after = nonempty_trimmed(ps.take(i + 1));
            assert(after == before.push(t@));
            if p {
                assert(pattern_panics(after[after.len() - 1]));
                found = true;
            } else {
                assert forall|k: int| 0 <= k < after.len() && #[trigger] pattern_panics(after[k])
                    implies 0 <= k < before.len() && pattern_panics(before[k]) by {
                    if k < before.len() {
                        assert(after[k] == before[k]);
                    }
                }
                proof {
                    if found {
                        let k = choose|k: int|
                            0 <= k < before.len() && #[trigger] pattern_panics(before[k]);
                        assert(after[k] == before[k]);
                    }
                }
            }
        } else {
            assert(nonempty_trimmed(ps.take(i + 1)) == before);
        }
        i = i + 1;
    }
    assert(ps.take(parts.len() as int) =~= ps);
    found
}

/// The patterns of a search specification: `|`-separated pieces, trimmed,
/// empty ones left out, each read by `parse_single_pattern`.
pub fn parse_search_patterns(s: &str) -> (r: Vec<SearchPattern>)
    requires
        !patterns_panic(s@),
    ensures
        r.len() == pattern_texts(s@).len(),
        forall|k: int|
            0 <= k < r.len() ==> pattern_view(#[trigger] r@[k]) == spec_pattern(
                pattern_texts(s@)[k],
            ),
{
    let parts = split_chars(&chars_of(s), '|');
    let ghost ps = seq_views(parts@);
    let mut out: Vec<SearchPattern> = Vec::new();
    let mut i: usize = 0;
    while i < parts.len()
        invariant
            i <= parts.len(),
            ps == seq_views(parts@),
            ps == split_on(s@, '|'),
            !patterns_panic(s@),
            out.len() == nonempty_trimmed(ps.take(i as int)).len(),
            forall|k: int|
                0 <= k < out.len() ==> pattern_view(#[trigger] out@[k]) == spec_pattern(
                    nonempty_trimmed(ps.take(i as int))[k],
                ),
            forall|k: int|
                0 <= k < nonempty_trimmed(ps.take(i as int)).len() ==> pattern_texts(s@).contains(
                    #[trigger] nonempty_trimmed(ps.take(i as int))[k],
                ),
        decreases parts.len() - i,
    {
        let ghost before = nonempty_trimmed(ps.take(i as int));
        assert(ps.take(i + 1).drop_last() =~= ps.take(i as int));
        assert(ps.take(i + 1).last() == parts@[i as int]@);
        proof {
            lemma_nonempty_trimmed_prefix(ps, i + 1);
        }
        let t = trim_chars(&parts[i]);
        if t.len() > 0 {
            let ghost after = nonempty_trimmed(ps.take(i + 1));
            assert(after == before.push(t@));
            proof {
                assert(pattern_texts(s@).contains(after[after.len() - 1]));
                let j = choose|j: int|
                    0 <= j < pattern_texts(s@).len() && pattern_texts(s@)[j] == after[after.len() - 1];
                assert(!pattern_panics(pattern_texts(s@)[j]));
            }
            let st = string_of(&t);
            let p = parse_single_pattern(st.as_str());
            out.push(p);
        } else {
            assert(nonempty_trimmed(ps.take(i + 1)) == before);
        }
        i = i + 1;
    }
    assert(ps.take(parts.len() as int) =~= ps);
    out
}

/// Each piece kept from a prefix of the parts is among the pieces of all.
proof fn lemma_nonempty_trimmed_prefix(ps: Seq<Seq<char>>, i: int)
    requires
        0 <= i <= ps.len(),
    ensures
        forall|k: int|
            0 <= k < nonempty_trimmed(ps.take(i)).len() ==> nonempty_trimmed(ps).contains(
                #[trigger] nonempty_trimmed(ps.take(i))[k],
            ),
    decreases ps.len() - i,
{
    if i < ps.len() {
        lemma_nonempty_trimmed_prefix(ps, i + 1);
        assert(ps.take(i + 1).drop_last() =~= ps.take(i));
        let a = nonempty_trimmed(ps.take(i));
        let b = nonempty_trimmed(ps.take(i + 1));
        assert forall|k: int| 0 <= k < a.len() implies nonempty_trimmed(ps).contains(
            #[trigger] a[k],
        ) by {
            assert(b[k] == a[k]);
        }
    } else {
        assert(ps.take(i) =~= ps);
        let a = nonempty_trimmed(ps);
        assert forall|k: int| 0 <= k < a.len() implies a.contains(#[trigger] a[k]) by {
            assert(a[k] == a[k]);
        }
    }
}

/// Whether operation `o` is selected by pattern `p`.
pub open spec fn spec_match_op(o: ContentOp, p: SearchPattern) -> bool {
    match p {
        SearchPattern::Operator(name_glob, operator) => o.operator@ == operator@ && o.name is Some
            && glob(name_glob@, o.name->0@),
        SearchPattern::Bytes(needle) => is_text_show(crate::content::spec_opcode(o.operator@))
            && exists|k: int|
                0 <= k < o.strings@.len() && contains_seq(#[trigger] o.strings@[k]@, needle@),
    }
}

/// Whether operation `op` is selected by pattern `pat`: an operator pattern
/// by the operator and a name operand matching its glob, a byte pattern by a
/// text-showing operation with a string that contains the bytes.
pub fn match_op_pattern(op: &ContentOp, pat: &SearchPattern) -> (r: bool)
    ensures
        r == spec_match_op(*op, *pat),
{
    match pat {
        SearchPattern::Operator(name_glob, operator) => {
            if op.operator != *operator {
                return false;
            }
            match &op.name {
                Some(n) => glob_match(name_glob.as_str(), n.as_str()),
                None => false,
            }
        },
        SearchPattern::Bytes(needle) => {
            let c = crate::content::op_code(op.operator.as_str());
            assert(c == crate::content::spec_opcode(op.operator@));
            if !(c == OpCode::Tj || c == OpCode::TJ || c == OpCode::Quote || c
                == OpCode::DoubleQuote) {
                return false;
            }
            let mut k: usize = 0;
            while k < op.strings.len()
                invariant
                    k <= op.strings.len(),
                    *pat == SearchPattern::Bytes(*needle),
                    is_text_show(crate::content::spec_opcode(op.operator@)),
                    forall|j: int| 0 <= j < k ==> !contains_seq(#[trigger] op.strings@[j]@, needle@),
                decreases op.strings.len() - k,
            {
                if bytes_contain(op.strings[k].as_slice(), needle.as_slice()) {
                    assert(contains_seq(op.strings@[k as int]@, needle@));
                    return true;
                }
                k = k + 1;
            }
            false
        },
    }
}

/// Scanning back from `j`, the `q` that is still open (`depth` blocks closed
/// on the way).
pub open spec fn open_save_before(ops: Seq<ContentOp>, j: int, depth: nat) -> Option<int>
    decreases j + 1,
{
    if j < 0 || j >= ops.len() {
        None
    } else if code_at(ops, j) == OpCode::Restore {
        open_save_before(ops, j - 1, depth + 1)
    } else if code_at(ops, j) == OpCode::Save {
        if depth == 0 {
            Some(j)
        } else {
            open_save_before(ops, j - 1, (depth - 1) as nat)
        }
    } else {
        open_save_before(ops, j - 1, depth)
    }
}

/// Scanning on from `k`, the `Q` that closes the block open at `k`.
pub open spec fn closing_restore(ops: Seq<ContentOp>, k: int, depth: nat) -> Option<int>
    decreases ops.len() - k,
{
    if k < 0 || k >= ops.len() {
        None
    } else if code_at(ops, k) == OpCode::Save {
        closing_restore(ops, k + 1, depth + 1)
    } else if code_at(ops, k) == OpCode::Restore {
        if depth == 0 {
            Some(k)
        } else {
            closing_restore(ops, k + 1, (depth - 1) as nat)
        }
    } else {
        closing_restore(ops, k + 1, depth)
    }
}

/// The innermost `q`..`Q` block around operation `target`.
pub open spec fn enclosing_save(ops: Seq<ContentOp>, target: int) -> Option<(int, int)> {
    match open_save_before(ops, target - 1, 0) {
        None => None,
        Some(s) => match closing_restore(ops, s + 1, 0) {
            None => None,
            Some(e) => Some((s, e)),
        },
    }
}

/// Scanning back from `j`, the `BT` met before any `ET`.
pub open spec fn open_text_before(ops: Seq<ContentOp>, j: int) -> Option<int>
    decreases j + 1,
{
    if j < 0 || j >= ops.len() {
        None
    } else if ops[j].operator@ == "BT"@ {
        Some(j)
    } else if ops[j].operator@ == "ET"@ {
        None
    } else {
        open_text_before(ops, j - 1)
    }
}

/// The first `ET` at or after `k`.
pub open spec fn next_text_end(ops: Seq<ContentOp>, k: int) -> Option<int>
    decreases ops.len() - k,
{
    if k < 0 || k >= ops.len() {
        None
    } else if ops[k].operator@ == "ET"@ {
        Some(k)
    } else {
        next_text_end(ops, k + 1)
    }
}

/// The `BT`..`ET` block around operation `target`.
pub open spec fn enclosing_text(ops: Seq<ContentOp>, target: int) -> Option<(int, int)> {
    match open_text_before(ops, target - 1) {
        None => None,
        Some(s) => match next_text_end(ops, s + 1) {
            None => None,
            Some(e) => Some((s, e)),
        },
    }
}

/// What goes when operation `target` goes: its innermost `q`..`Q` block;
/// failing that, for a text-showing operation, its `BT`..`ET` block; failing
/// that, the operation alone.
pub open spec fn spec_block_to_delete(ops: Seq<ContentOp>, target: int) -> (int, int) {
    match enclosing_save(ops, target) {
        Some(r) => r,
        None => if is_text_show(code_at(ops, target)) && enclosing_text(ops, target) is Some {
            enclosing_text(ops, target)->0
        } else {
            (target, target)
        },
    }
}

fn open_save_before_exec(Ghost(ops): Ghost<Seq<ContentOp>>, codes: &Vec<OpCode>, target: usize) -> (r:
    Option<usize>)
    requires
        codes_match(ops, codes@),
        target <= ops.len(),
    ensures
        match open_save_before(ops, target - 1, 0) {
            Some(s) => r == Some(s as usize) && 0 <= s < target,
            None => r is None,
        },
{
    let mut depth: usize = 0;
    let mut j = target;
    while j > 0
        invariant
            codes_match(ops, codes@),
            j <= target <= ops.len(),
            depth <= target - j,
            open_save_before(ops, target - 1, 0) == open_save_before(ops, j - 1, depth as nat),
        decreases j,
    {
        let c = codes[j - 1];
        if c == OpCode::Restore {
            depth = depth + 1;
        } else if c == OpCode::Save {
            if depth == 0 {
                return Some(j - 1);
            }
            depth = depth - 1;
        }
        j = j - 1;
    }
    None
}

fn closing_restore_exec(Ghost(ops): Ghost<Seq<ContentOp>>, codes: &Vec<OpCode>, k0: usize) -> (r:
    Option<usize>)
    requires
        codes_match(ops, codes@),
        k0 <= ops.len(),
    ensures
        match closing_restore(ops, k0 as int, 0) {
            Some(e) => r == Some(e as usize) && k0 <= e < ops.len(),
            None => r is None,
        },
{
    let mut k = k0;
    let mut depth: usize = 0;
    while k < codes.len()
        invariant
            codes_match(ops, codes@),
            k0 <= k <= ops.len(),
            depth <= k - k0,
            closing_restore(ops, k0 as int, 0) == closing_restore(ops, k as int, depth as nat),
        decreases codes.len() - k,
    {
        let c = codes[k];
        if c == OpCode::Save {
            depth = depth + 1;
        } else if c == OpCode::Restore {
            if depth == 0 {
                return Some(k);
            }
            depth = depth - 1;
        }
        k = k + 1;
    }
    None
}

/// The innermost `q`..`Q` block around operation `target`.
pub fn find_enclosing_q_q(ops: &Vec<ContentOp>, target: usize) -> (r: Option<(usize, usize)>)
    requires
        target <= ops.len(),
    ensures
        match enclosing_save(ops@, target as int) {
            Some(b) => r == Some((b.0 as usize, b.1 as usize)) && 0 <= b.0 < b.1 < ops.len(),
            None => r is None,
        },
{
    let codes = op_codes(ops);
    match open_save_before_exec(Ghost(ops@), &codes, target) {
        None => None,
        Some(s) => match closing_restore_exec(Ghost(ops@), &codes, s + 1) {
            None => None,
            Some(e) => Some((s, e)),
        },
    }
}

fn open_text_before_exec(ops: &Vec<ContentOp>, target: usize) -> (r: Option<usize>)
    requires
        target <= ops.len(),
    ensures
        match open_text_before(ops@, target - 1) {
            Some(s) => r == Some(s as usize) && 0 <= s < target,
            None => r is None,
        },
{
    let mut j = target;
    while j > 0
        invariant
            j <= target <= ops.len(),
            open_text_before(ops@, target - 1) == open_text_before(ops@, j - 1),
        decreases j,
    {
        let o = chars_of(ops[j - 1].operator.as_str());
        if crate::chars::eq_str(&o, "BT") {
            return Some(j - 1);
        }
        if crate::chars::eq_str(&o, "ET") {
            return None;
        }
        j = j - 1;
    }
    None
}

/// The `BT`..`ET` block around operation `target`.
pub fn find_enclosing_btet(ops: &Vec<ContentOp>, target: usize) -> (r: Option<(usize, usize)>)
    requires
        target <= ops.len(),
    ensures
        match enclosing_text(ops@, target as int) {
            Some(b) => r == Some((b.0 as usize, b.1 as usize)) && 0 <= b.0 < b.1 < ops.len(),
            None => r is None,
        },
{
    let s = match open_text_before_exec(ops, target) {
        None => {
            return None;
        },
        Some(s) => s,
    };
    let mut k = s + 1;
    while k < ops.len()
        invariant
            s < k <= ops.len(),
            next_text_end(ops@, s + 1) == next_text_end(ops@, k as int),
            target <= ops.len(),
            open_text_before(ops@, target - 1) == Some(s as int),
        decreases ops.len() - k,
    {
        if crate::chars::eq_str(&chars_of(ops[k].operator.as_str()), "ET") {
            assert(next_text_end(ops@, k as int) == Some(k as int));
            assert(open_text_before(ops@, target - 1) == Some(s as int));
            assert(enclosing_text(ops@, target as int) == Some((s as int, k as int)));
            return Some((s, k));
        }
        k = k + 1;
    }
    None
}

/// What goes when operation `target` goes: its innermost `q`..`Q` block;
/// failing that, for a text-showing operation, its `BT`..`ET` block; failing
/// that, the operation alone.
pub fn block_to_delete(ops: &Vec<ContentOp>, target: usize) -> (r: (usize, usize))
    requires
        target < ops.len(),
    ensures
        r.0 as int == spec_block_to_delete(ops@, target as int).0,
        r.1 as int == spec_block_to_delete(ops@, target as int).1,
        r.0 <= r.1 < ops.len(),
{
    if let Some(b) = find_enclosing_q_q(ops, target) {
        return b;
    }
    let c = crate::content::op_code(ops[target].operator.as_str());
    if c == OpCode::Tj || c == OpCode::TJ || c == OpCode::Quote || c == OpCode::DoubleQuote {
        if let Some(b) = find_enclosing_btet(ops, target) {
            return b;
        }
    }
    (target, target)
}

/// A block selected by a search: operations `start..=end`; `resource` says
/// that it was found through an XObject whose own content matched.
#[derive(Debug, Clone, Copy, PartialEq, Eq)]
pub struct SearchHit {
    pub start: usize,
    pub end: usize,
    pub resource: bool,
}

/// Operation `k` is selected by one of the patterns.
pub open spec fn direct_hit(ops: Seq<ContentOp>, pats: Seq<SearchPattern>, k: int) -> bool {
    exists|j: int| 0 <= j < pats.len() && spec_match_op(ops[k], #[trigger] pats[j])
}

/// Operation `k` draws, by `Do`, one of the XObjects `res` whose content
/// matched.
pub open spec fn resource_hit(ops: Seq<ContentOp>, res: Seq<String>, k: int) -> bool {
    &&& res.len() > 0
    &&& code_at(ops, k) == OpCode::Do
    &&& ops[k].name is Some
    &&& exists|j: int| 0 <= j < res.len() && (#[trigger] res[j])@ == ops[k].name->0@
}

pub open spec fn hit_covers(h: Seq<SearchHit>, k: int) -> bool {
    exists|j: int| 0 <= j < h.len() && (#[trigger] h[j]).start <= k <= h[j].end
}

/// The blocks selected scanning from `i` on, `h` having been found before:
/// an operation inside a block found before is passed over; one selected
/// brings in its block (`block_to_delete`).
pub open spec fn search_hits(
    ops: Seq<ContentOp>,
    pats: Seq<SearchPattern>,
    res: Seq<String>,
    i: int,
    h: Seq<SearchHit>,
) -> Seq<SearchHit>
    decreases ops.len() - i,
{
    if i < 0 || i >= ops.len() {
        h
    } else if hit_covers(h, i) {
        search_hits(ops, pats, res, i + 1, h)
    } else if direct_hit(ops, pats, i) || resource_hit(ops, res, i) {
        let b = spec_block_to_delete(ops, i);
        search_hits(
            ops,
            pats,
            res,
            i + 1,
            h.push(SearchHit { start: b.0 as usize, end: b.1 as usize, resource: resource_hit(ops, res, i) }),
        )
    } else {
        search_hits(ops, pats, res, i + 1, h)
    }
}

fn hit_covers_exec(h: &Vec<SearchHit>, k: usize) -> (r: bool)
    ensures
        r == hit_covers(h@, k as int),
{
    let mut j: usize = 0;
    while j < h.len()
        invariant
            j <= h.len(),
            forall|m: int| 0 <= m < j ==> !((#[trigger] h@[m]).start <= k <= h@[m].end),
        decreases h.len() - j,
    {
        if h[j].start <= k && k <= h[j].end {
            return true;
        }
        j = j + 1;
    }
    false
}

fn direct_hit_exec(ops: &Vec<ContentOp>, pats: &Vec<SearchPattern>, k: usize) -> (r: bool)
    requires
        k < ops.len(),
    ensures
        r == direct_hit(ops@, pats@, k as int),
{
    let mut j: usize = 0;
    while j < pats.len()
        invariant
            j <= pats.len(),
            k < ops.len(),
            forall|m: int| 0 <= m < j ==> !spec_match_op(ops@[k as int], #[trigger] pats@[m]),
        decreases pats.len() - j,
    {
        if match_op_pattern(&ops[k], &pats[j]) {
            return true;
        }
        j = j + 1;
    }
    false
}

fn resource_hit_exec(ops: &Vec<ContentOp>, codes: &Vec<OpCode>, res: &Vec<String>, k: usize) -> (r:
    bool)
    requires
        codes_match(ops@, codes@),
        k < ops.len(),
    ensures
        r == resource_hit(ops@, res@, k as int),
{
    if res.len() == 0 || codes[k] != OpCode::Do {
        return false;
    }
    assert(code_at(ops@, k as int) == OpCode::Do);
    match &ops[k].name {
        None => false,
        Some(n) => {
            let mut j: usize = 0;
            while j < res.len()
                invariant
                    j <= res.len(),
                    res.len() > 0,
                    k < ops.len(),
                    code_at(ops@, k as int) == OpCode::Do,
                    ops@[k as int].name == Some(*n),
                    forall|m: int| 0 <= m < j ==> (#[trigger] res@[m])@ != n@,
                decreases res.len() - j,
            {
                if res[j] == *n {
                    assert(res@[j as int]@ == n@);
                    return true;
                }
                j = j + 1;
            }
            false
        },
    }
}

/// The blocks that a content-stream search selects, in the order found:
/// each operation selected by a pattern, or drawing one of the XObjects
/// `res` whose own content matched, brings in its block
/// (`block_to_delete`); operations inside a block already found are passed
/// over.
pub fn stream_search_hits(ops: &Vec<ContentOp>, pats: &Vec<SearchPattern>, res: &Vec<String>) -> (r:
    Vec<SearchHit>)
    ensures
        r@ == search_hits(ops@, pats@, res@, 0, Seq::empty()),
{
    let codes = op_codes(ops);
    let mut h: Vec<SearchHit> = Vec::new();
    let mut i: usize = 0;
    while i < ops.len()
        invariant
            codes_match(ops@, codes@),
            i <= ops.len(),
            search_hits(ops@, pats@, res@, i as int, h@) == search_hits(
                ops@,
                pats@,
                res@,
                0,
                Seq::empty(),
            ),
        decreases ops.len() - i,
    {
        if !hit_covers_exec(&h, i) {
            let d = direct_hit_exec(ops, pats, i);
            let rh = resource_hit_exec(ops, &codes, res, i);
            if d || rh {
                let (s, e) = block_to_delete(ops, i);
                h.push(SearchHit { start: s, end: e, resource: rh });
            }
        }
        i = i + 1;
    }
    h
}

/// A form XObject of the page whose content is searched: its resource name,
/// its decoded content, and (where `parsed`) its operations.
#[derive(Debug, Clone)]
pub struct FormContent {
    pub name: String,
    pub content: Vec<u8>,
    pub parsed: bool,
    pub ops: Vec<ContentOp>,
}

/// The content of `f` could be parsed and one of its operations is selected
/// by a pattern.
pub open spec fn some_op_matches(f: FormContent, pats: Seq<SearchPattern>) -> bool {
    f.parsed && exists|k: int| 0 <= k < f.ops@.len() && #[trigger] direct_hit(f.ops@, pats, k)
}

/// The content of form `f` matches: it holds the bytes of a byte pattern,
/// or one of its operations is selected by a pattern.
pub open spec fn form_matches(f: FormContent, pats: Seq<SearchPattern>) -> bool {
    (exists|j: int|
        0 <= j < pats.len() && (#[trigger] pats[j] matches SearchPattern::Bytes(n) && contains_seq(
            f.content@,
            n@,
        ))) || some_op_matches(f, pats)
}

fn form_matches_exec(f: &FormContent, pats: &Vec<SearchPattern>) -> (r: bool)
    ensures
        r == form_matches(*f, pats@),
{
    let mut j: usize = 0;
    while j < pats.len()
        invariant
            j <= pats.len(),
            forall|m: int|
                0 <= m < j ==> !(#[trigger] pats@[m] matches SearchPattern::Bytes(n) && contains_seq(
                    f.content@,
                    n@,
                )),
        decreases pats.len() - j,
    {
        match &pats[j] {
            SearchPattern::Bytes(n) => {
                if bytes_contain(f.content.as_slice(), n.as_slice()) {
                    return true;
                }
            },
            SearchPattern::Operator(_, _) => {},
        }
        j = j + 1;
    }
    if !f.parsed {
        return false;
    }
    let mut k: usize = 0;
    while k < f.ops.len()
        invariant
            k <= f.ops.len(),
            f.parsed,
            forall|m: int| 0 <= m < k ==> !direct_hit(f.ops@, pats@, m),
        decreases f.ops.len() - k,
    {
        if direct_hit_exec(&f.ops, pats, k) {
            assert(direct_hit(f.ops@, pats@, k as int));
            assert(some_op_matches(*f, pats@));
            return true;
        }
        k = k + 1;
    }
    false
}

/// The names of the forms whose content matches, in the order of `forms`.
pub open spec fn matched_names(forms: Seq<FormContent>, pats: Seq<SearchPattern>) -> Seq<String>
    decreases forms.len(),
{
    if forms.len() == 0 {
        Seq::empty()
    } else {
        let rest = matched_names(forms.drop_last(), pats);
        if form_matches(forms.last(), pats) {
            rest.push(forms.last().name)
        } else {
            rest
        }
    }
}

/// The names of the forms whose content matches one of the patterns, in
/// the order of `forms`.
pub fn resource_stream_matches(forms: &Vec<FormContent>, pats: &Vec<SearchPattern>) -> (r: Vec<String>)
    ensures
        r@ == matched_names(forms@, pats@),
{
    let mut r: Vec<String> = Vec::new();
    let mut j: usize = 0;
    while j < forms.len()
        invariant
            j <= forms.len(),
            r@ == matched_names(forms@.take(j as int), pats@),
        decreases forms.len() - j,
    {
        assert(forms@.take(j + 1).drop_last() =~= forms@.take(j as int));
        assert(forms@.take(j + 1).last() == forms@[j as int]);
        if form_matches_exec(&forms[j], pats) {
            r.push(forms[j].name.clone());
        }
        j = j + 1;
    }
    assert(forms@.take(forms.len() as int) =~= forms@);
    r
}

/// For each of `n` operations, whether it lies in one of the hits' blocks.
pub open spec fn in_hit(hits: Seq<SearchHit>, k: int) -> bool {
    exists|j: int| 0 <= j < hits.len() && (#[trigger] hits[j]).start <= k <= hits[j].end
}

/// Which of `n` operations go with the blocks `hits`.
pub fn hit_mask(hits: &Vec<SearchHit>, n: usize) -> (r: Vec<bool>)
    ensures
        r.len() == n,
        forall|k: int| 0 <= k < n ==> r@[k] == in_hit(hits@, k),
{
    let mut r: Vec<bool> = Vec::new();
    let mut k: usize = 0;
    while k < n
        invariant
            k <= n,
            r.len() == k,
            forall|j: int| 0 <= j < k ==> r@[j] == in_hit(hits@, j),
        decreases n - k,
    {
        let mut found = false;
        let mut j: usize = 0;
        while j < hits.len()
            invariant
                j <= hits.len(),
                !found ==> forall|m: int| 0 <= m < j ==> !((#[trigger] hits@[m]).start <= k <= hits@[m].end),
                found ==> in_hit(hits@, k as int),
            decreases hits.len() - j,
        {
            if !found && hits[j].start <= k && k <= hits[j].end {
                found = true;
            }
            j = j + 1;
        }
        r.push(found);
        k = k + 1;
    }
    r
}

/// Whether one of `names` spells `n`.
pub open spec fn names_contain(names: Seq<String>, n: Seq<char>) -> bool {
    exists|j: int| 0 <= j < names.len() && (#[trigger] names[j])@ == n
}

fn names_contain_exec(names: &Vec<String>, n: &String) -> (r: bool)
    ensures
        r == names_contain(names@, n@),
{
    let v = chars_of(n.as_str());
    let mut j: usize = 0;
    while j < names.len()
        invariant
            j <= names.len(),
            v@ == n@,
            forall|m: int| 0 <= m < j ==> (#[trigger] names@[m])@ != n@,
        decreases names.len() - j,
    {
        if crate::chars::eq_str(&v, names[j].as_str()) {
            return true;
        }
        j = j + 1;
    }
    false
}

/// Operation `i` draws one of the XObjects `names`: a `Do` whose name
/// operand is among them.
pub open spec fn draws_listed(ops: Seq<ContentOp>, names: Seq<String>, i: int) -> bool {
    &&& ops[i].operator@ == "Do"@
    &&& ops[i].name matches Some(n) && names_contain(names, n@)
}

/// Operation `k` lies in the block (`block_to_delete`) of one of the first
/// `i` operations that draw one of the XObjects `names`.
pub open spec fn in_drawn_block(ops: Seq<ContentOp>, names: Seq<String>, i: int, k: int) -> bool
    decreases i,
{
    if i <= 0 {
        false
    } else {
        in_drawn_block(ops, names, i - 1, k) || (draws_listed(ops, names, i - 1)
            && spec_block_to_delete(ops, i - 1).0 <= k <= spec_block_to_delete(ops, i - 1).1)
    }
}

/// Which operations go when the XObjects `names` are taken off the page:
/// the block of every `Do` that draws one of them.
pub fn drawn_block_mask(ops: &Vec<ContentOp>, names: &Vec<String>) -> (r: Vec<bool>)
    ensures
        r.len() == ops.len(),
        forall|k: int| 0 <= k < ops.len() ==> r@[k] == in_drawn_block(ops@, names@, ops.len() as int, k),
{
    let mut r: Vec<bool> = Vec::new();
    let mut k: usize = 0;
    while k < ops.len()
        invariant
            k <= ops.len(),
            r.len() == k,
            forall|j: int| 0 <= j < k ==> !r@[j],
        decreases ops.len() - k,
    {
        r.push(false);
        k = k + 1;
    }
    let mut i: usize = 0;
    while i < ops.len()
        invariant
            i <= ops.len(),
            r.len() == ops.len(),
            forall|k: int| 0 <= k < ops.len() ==> r@[k] == in_drawn_block(ops@, names@, i as int, k),
        decreases ops.len() - i,
    {
        let o = chars_of(ops[i].operator.as_str());
        let draws = crate::chars::eq_str(&o, "Do") && match &ops[i].name {
            Some(n) => names_contain_exec(names, n),
            None => false,
        };
        assert(draws == draws_listed(ops@, names@, i as int));
        if draws {
            let (s, e) = block_to_delete(ops, i);
            let mut j = s;
            while j <= e
                invariant
                    s <= j <= e + 1,
                    e < ops.len(),
                    r.len() == ops.len(),
                    s as int == spec_block_to_delete(ops@, i as int).0,
                    e as int == spec_block_to_delete(ops@, i as int).1,
                    draws_listed(ops@, names@, i as int),
                    forall|k: int|
                        0 <= k < ops.len() ==> r@[k] == (in_drawn_block(ops@, names@, i as int, k) || (
                        s <= k < j)),
                decreases e + 1 - j,
            {
                r.set(j, true);
                j = j + 1;
            }
        }
        assert forall|k: int| 0 <= k < ops.len() implies r@[k] == in_drawn_block(
            ops@,
            names@,
            i + 1,
            k,
        ) by {}
        i = i + 1;
    }
    r
}

/// The names at the positions (from 0) that `del` selects and `skip` does
/// not, among the first `n`.
pub open spec fn spec_selected_names(names: Seq<String>, del: Seq<usize>, skip: Seq<usize>, n: int) -> Seq<
    Seq<char>,
>
    decreases n,
{
    if n <= 0 {
        Seq::empty()
    } else {
        let prev = spec_selected_names(names, del, skip, n - 1);
        if del.contains((n - 1) as usize) && !skip.contains((n - 1) as usize) {
            prev.push(names[n - 1]@)
        } else {
            prev
        }
    }
}

fn usize_listed(v: &Vec<usize>, x: usize) -> (r: bool)
    ensures
        r == v@.contains(x),
{
    let mut j: usize = 0;
    while j < v.len()
        invariant
            j <= v.len(),
            forall|m: int| 0 <= m < j ==> v@[m] != x,
        decreases v.len() - j,
    {
        if v[j] == x {
            return true;
        }
        j = j + 1;
    }
    false
}

/// The names, in order, at the positions (from 0) listed in `del` and not
/// in `skip`.
pub fn selected_names(names: &Vec<String>, del: &Vec<usize>, skip: &Vec<usize>) -> (r: Vec<String>)
    ensures
        r@.map_values(|s: String| s@) == spec_selected_names(names@, del@, skip@, names.len() as int),
{
    let mut r: Vec<String> = Vec::new();
    let mut i: usize = 0;
    while i < names.len()
        invariant
            i <= names.len(),
            r@.map_values(|s: String| s@) == spec_selected_names(names@, del@, skip@, i as int),
        decreases names.len() - i,
    {
        if usize_listed(del, i) && !usize_listed(skip, i) {
            let ghost before = r@;
            r.push(names[i].clone());
            assert(r@.map_values(|s: String| s@) =~= before.map_values(|s: String| s@).push(
                names@[i as int]@,
            ));
        }
        i = i + 1;
    }
    r
}

} // verus!
