//! Turning the bytes of a text-showing operator into readable text: through
//! the font's ToUnicode table where there is one, else by guessing the
//! encoding.
use vstd::prelude::*;
use vstd::utf8::{decode_utf8, valid_utf8};
use crate::cmap::table_view;
use crate::keywords::{utf8_lossy, utf8_lossy_of};
use std::collections::HashMap;

verus! {

/// What `encoding_rs::GBK.decode` gives for `b`: the text and whether
/// malformed sequences were replaced.
pub uninterp spec fn gbk_decoded(b: Seq<u8>) -> (Seq<char>, bool);

/// `encoding_rs::Encoding::decode` on `GBK` (after the crate's BOM
/// sniffing): the decoded text and whether it had malformed sequences. The
/// result is named `gbk_decoded`; nothing more is claimed of it.
#[verifier::external_body]
fn gbk_decode(b: &[u8]) -> (r: (String, bool))
    ensures
        (r.0@, r.1) == gbk_decoded(b@),
{
    let (text, _, had_errors) = encoding_rs::GBK.decode(b);
    (text.into_owned(), had_errors)
}

/// `std::str::from_utf8`: the text of `b` where `b` is valid UTF-8, as std
/// documents it.
#[verifier::external_body]
pub(crate) fn utf8_text(b: &[u8]) -> (r: Option<String>)
    ensures
        r is Some <==> valid_utf8(b@),
        r matches Some(s) ==> s@ == decode_utf8(b@),
{
    match std::str::from_utf8(b) {
        Ok(s) => Some(s.to_string()),
        Err(_) => None,
    }
}

/// A printable ASCII byte, space to `~`.
pub open spec fn printable(b: u8) -> bool {
    32 <= b <= 126
}

/// The printable ASCII bytes of `b`, as characters, in order.
pub open spec fn printable_chars(b: Seq<u8>) -> Seq<char>
    decreases b.len(),
{
    if b.len() == 0 {
        Seq::empty()
    } else {
        let rest = printable_chars(b.drop_last());
        if printable(b.last()) {
            rest.push((b.last() as u32) as char)
        } else {
            rest
        }
    }
}

/// How many bytes of `b` lie above 127.
pub open spec fn high_bytes(b: Seq<u8>) -> nat
    decreases b.len(),
{
    if b.len() == 0 {
        0
    } else {
        high_bytes(b.drop_last()) + if b.last() > 127 {
            1nat
        } else {
            0nat
        }
    }
}

/// The text of bytes that no table explains: printable ASCII as it
/// stands; else valid UTF-8; else, for two bytes or more of which a large
/// share (`mostly_high`) lies above 127, GBK where it decodes without
/// error; else the printable ASCII bytes alone.
pub open spec fn spec_fallback(b: Seq<u8>, mostly_high: bool) -> Seq<char> {
    if forall|k: int| 0 <= k < b.len() ==> printable(#[trigger] b[k]) {
        utf8_lossy_of(b)
    } else if valid_utf8(b) {
        decode_utf8(b)
    } else if b.len() >= 2 && mostly_high && !gbk_decoded(b).1 {
        gbk_decoded(b).0
    } else {
        printable_chars(b)
    }
}

/// How many bytes of `b` lie above 127.
pub fn high_byte_count(b: &[u8]) -> (n: usize)
    ensures
        n == high_bytes(b@),
{
    let mut n: usize = 0;
    let mut i: usize = 0;
    while i < b.len()
        invariant
            i <= b.len(),
            n <= i,
            n == high_bytes(b@.take(i as int)),
        decreases b.len() - i,
    {
        assert(b@.take(i + 1).drop_last() =~= b@.take(i as int));
        if b[i] > 127 {
            n = n + 1;
        }
        i = i + 1;
    }
    assert(b@.take(b.len() as int) =~= b@);
    n
}

/// The text of bytes that no ToUnicode table explains. `mostly_high` says
/// whether more than 30% of the bytes lie above 127 (see
/// `high_byte_count`); only then is GBK tried.
pub fn decode_fallback(b: &[u8], mostly_high: bool) -> (s: String)
    ensures
        s@ == spec_fallback(b@, mostly_high),
{
    let mut all_printable = true;
    let mut i: usize = 0;
    while i < b.len()
        invariant
            i <= b.len(),
            all_printable == forall|k: int| 0 <= k < i ==> printable(#[trigger] b@[k]),
        decreases b.len() - i,
    {
        if !(32 <= b[i] && b[i] <= 126) {
            all_printable = false;
        }
        i = i + 1;
    }
    if all_printable {
        return utf8_lossy(b);
    }
    if let Some(s) = utf8_text(b) {
        return s;
    }
    if b.len() >= 2 && mostly_high {
        return gbk_or_visible(b, gbk_decode(b));
    }
    visible_text(b)
}

/// The printable ASCII bytes of `b`, as text: what is shown of bytes that
/// no encoding explains.
pub fn visible_text(b: &[u8]) -> (s: String)
    ensures
        s@ == printable_chars(b@),
{
    let mut out: Vec<char> = Vec::new();
    let mut j: usize = 0;
    while j < b.len()
        invariant
            j <= b.len(),
            out@ == printable_chars(b@.take(j as int)),
        decreases b.len() - j,
    {
        assert(b@.take(j + 1).drop_last() =~= b@.take(j as int));
        let x = b[j];
        if 32 <= x && x <= 126 {
            out.push(x as char);
        }
        j = j + 1;
    }
    assert(b@.take(b.len() as int) =~= b@);
    crate::chars::string_of(&out)
}

/// The text of `b` given its GBK decoding `decoded` (the text, and whether
/// it had malformed sequences): the decoded text where it had none, else
/// the printable bytes.
pub fn gbk_or_visible(b: &[u8], decoded: (String, bool)) -> (s: String)
    ensures
        s@ == if !decoded.1 {
            decoded.0@
        } else {
            printable_chars(b@)
        },
{
    let (text, had_errors) = decoded;
    if !had_errors {
        text
    } else {
        visible_text(b)
    }
}

/// The codes of `b` read two bytes at a time (big-endian), a last odd byte
/// on its own.
pub open spec fn two_byte_codes(b: Seq<u8>) -> Seq<u16>
    decreases b.len(),
{
    if b.len() == 0 {
        Seq::empty()
    } else if b.len() == 1 {
        seq![b[0] as u16]
    } else {
        seq![(b[0] * 256 + b[1]) as u16] + two_byte_codes(b.skip(2))
    }
}

/// The codes of `b` read one byte at a time.
pub open spec fn one_byte_codes(b: Seq<u8>) -> Seq<u16> {
    b.map_values(|x: u8| x as u16)
}

/// The text of `codes` through the table, `?` for each code it lacks.
pub open spec fn read_codes(codes: Seq<u16>, m: Map<u16, Seq<char>>) -> Seq<char>
    decreases codes.len(),
{
    if codes.len() == 0 {
        Seq::empty()
    } else {
        read_codes(codes.drop_last(), m) + if m.contains_key(codes.last()) {
            m[codes.last()]
        } else {
            seq!['?']
        }
    }
}

/// How many of `codes` the table lacks.
pub open spec fn misses(codes: Seq<u16>, m: Map<u16, Seq<char>>) -> nat
    decreases codes.len(),
{
    if codes.len() == 0 {
        0
    } else {
        misses(codes.drop_last(), m) + if m.contains_key(codes.last()) {
            0nat
        } else {
            1nat
        }
    }
}

/// The two readings of a byte string through a ToUnicode table.
pub struct CmapReadings {
    pub two_byte: String,
    pub two_byte_misses: usize,
    pub two_byte_total: usize,
    pub one_byte: String,
    pub one_byte_misses: usize,
    pub one_byte_total: usize,
}

/// Which reading to keep.
#[derive(Clone, Copy, Debug, PartialEq, Eq)]
pub enum CmapPick {
    Fallback,
    TwoByte,
    OneByte,
}

proof fn lemma_codes_len(b: Seq<u8>)
    ensures
        two_byte_codes(b).len() == (b.len() + 1) / 2,
    decreases b.len(),
{
    if b.len() >= 2 {
        lemma_codes_len(b.skip(2));
    }
}

proof fn lemma_misses_le(codes: Seq<u16>, m: Map<u16, Seq<char>>)
    ensures
        misses(codes, m) <= codes.len(),
    decreases codes.len(),
{
    if codes.len() > 0 {
        lemma_misses_le(codes.drop_last(), m);
    }
}

/// Reads `codes` through the table.
fn read_codes_exec(codes: &Vec<u16>, map: &HashMap<u16, String>) -> (r: (Vec<char>, usize))
    ensures
        r.0@ == read_codes(codes@, table_view(map@)),
        r.1 == misses(codes@, table_view(map@)),
{
    broadcast use vstd::std_specs::hash::group_hash_axioms;

    let ghost m = table_view(map@);
    let mut out: Vec<char> = Vec::new();
    let mut q: usize = 0;
    let mut i: usize = 0;
    while i < codes.len()
        invariant
            m == table_view(map@),
            i <= codes.len(),
            q <= i,
            out@ == read_codes(codes@.take(i as int), m),
            q == misses(codes@.take(i as int), m),
        decreases codes.len() - i,
    {
        assert(codes@.take(i + 1).drop_last() =~= codes@.take(i as int));
        let k = codes[i];
        match map.get(&k) {
            Some(s) => {
                let mut c = crate::chars::chars_of(s.as_str());
                let ghost before = out@;
                out.append(&mut c);
                assert(m.contains_key(k) && m[k] == s@);
                assert(out@ =~= before + m[k]);
            },
            None => {
                out.push('?');
                q = q + 1;
            },
        }
        i = i + 1;
    }
    assert(codes@.take(codes.len() as int) =~= codes@);
    (out, q)
}

/// The two-byte and one-byte readings of `b` through the table, each with
/// how many codes the table lacked and how many codes there were.
pub fn cmap_readings(b: &[u8], map: &HashMap<u16, String>) -> (r: CmapReadings)
    ensures
        r.two_byte@ == read_codes(two_byte_codes(b@), table_view(map@)),
        r.two_byte_misses == misses(two_byte_codes(b@), table_view(map@)),
        r.two_byte_total == (b@.len() + 1) / 2,
        r.one_byte@ == read_codes(one_byte_codes(b@), table_view(map@)),
        r.one_byte_misses == misses(one_byte_codes(b@), table_view(map@)),
        r.one_byte_total == b@.len(),
{
    let mut two: Vec<u16> = Vec::new();
    let mut j: usize = 0;
    assert(b@.skip(0) =~= b@);
    assert(two@ + two_byte_codes(b@.skip(0)) =~= two_byte_codes(b@));
    while j + 1 < b.len()
        invariant
            j % 2 == 0,
            j <= b.len(),
            two@ + two_byte_codes(b@.skip(j as int)) == two_byte_codes(b@),
        decreases b.len() - j,
    {
        let code: u16 = (b[j] as u16) * 256 + (b[j + 1] as u16);
        assert(b@.skip(j as int).skip(2) =~= b@.skip(j + 2));
        let ghost before = two@;
        two.push(code);
        assert(two@ + two_byte_codes(b@.skip(j + 2)) =~= before + two_byte_codes(b@.skip(j as int)));
        j = j + 2;
    }
    if j < b.len() {
        let ghost before = two@;
        two.push(b[j] as u16);
        assert(two@ =~= before + two_byte_codes(b@.skip(j as int)));
    } else {
        assert(b@.skip(j as int).len() == 0);
        assert(two@ =~= two@ + two_byte_codes(b@.skip(j as int)));
    }
    let mut one: Vec<u16> = Vec::new();
    let mut i: usize = 0;
    while i < b.len()
        invariant
            i <= b.len(),
            one@ == one_byte_codes(b@.take(i as int)),
        decreases b.len() - i,
    {
        one.push(b[i] as u16);
        i = i + 1;
        assert(one@ =~= one_byte_codes(b@.take(i as int)));
    }
    assert(b@.take(b.len() as int) =~= b@);
    let (t2, q2) = read_codes_exec(&two, map);
    let (t1, q1) = read_codes_exec(&one, map);
    proof {
        lemma_codes_len(b@);
    }
    CmapReadings {
        two_byte: crate::chars::string_of(&t2),
        two_byte_misses: q2,
        two_byte_total: b.len() / 2 + b.len() % 2,
        one_byte: crate::chars::string_of(&t1),
        one_byte_misses: q1,
        one_byte_total: b.len(),
    }
}

/// The text of a byte string shown in a font: without a table (or with an
/// empty one) the fallback reading; with one, the reading that `pick`
/// names (the one with fewer misses, or the fallback where both miss
/// badly).
pub open spec fn spec_decode_with_cmap(
    b: Seq<u8>,
    table: Option<Map<u16, Seq<char>>>,
    pick: CmapPick,
    mostly_high: bool,
) -> Seq<char> {
    match table {
        None => spec_fallback(b, mostly_high),
        Some(m) => if m.is_empty() {
            spec_fallback(b, mostly_high)
        } else {
            match pick {
                CmapPick::Fallback => spec_fallback(b, mostly_high),
                CmapPick::TwoByte => read_codes(two_byte_codes(b), m),
                CmapPick::OneByte => read_codes(one_byte_codes(b), m),
            }
        },
    }
}

pub open spec fn table_of(cmap: Option<&HashMap<u16, String>>) -> Option<Map<u16, Seq<char>>> {
    match cmap {
        Some(m) => Some(table_view(m@)),
        None => None,
    }
}

/// The text of the bytes `b` in a font with the ToUnicode table `cmap`:
/// without a table, or with an empty one, the fallback reading (GBK only
/// where `mostly_high`); else the reading that `pick` names.
pub fn decode_bytes_with_cmap(
    b: &[u8],
    cmap: Option<&HashMap<u16, String>>,
    pick: CmapPick,
    mostly_high: bool,
) -> (s: String)
    ensures
        s@ == spec_decode_with_cmap(b@, table_of(cmap), pick, mostly_high),
{
    broadcast use vstd::std_specs::hash::group_hash_axioms;

    match cmap {
        None => decode_fallback(b, mostly_high),
        Some(map) => {
            proof {
                assert(table_view(map@).dom() =~= map@.dom());
            }
            if map.is_empty() {
                return decode_fallback(b, mostly_high);
            }
            match pick {
                CmapPick::Fallback => decode_fallback(b, mostly_high),
                CmapPick::TwoByte => cmap_readings(b, map).two_byte,
                CmapPick::OneByte => cmap_readings(b, map).one_byte,
            }
        },
    }
}

} // verus!
