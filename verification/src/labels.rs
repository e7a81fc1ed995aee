//! Short human-readable names for PDF filters, colour spaces and paper
//! sizes, and shortened text.
use vstd::prelude::*;
use crate::chars::{chars_of, string_of};
use crate::keywords::{utf8_lossy, utf8_lossy_of};
use vstd::string::StringSliceAdditionalSpecFns;

verus! {

/// The label of a stream filter name.
pub open spec fn spec_filter_label(name: Seq<u8>) -> Seq<char> {
    if name == "DCTDecode".spec_bytes() {
        "JPEG"@
    } else if name == "FlateDecode".spec_bytes() {
        "PNG/Deflate"@
    } else if name == "CCITTFaxDecode".spec_bytes() {
        "TIFF/Fax"@
    } else if name == "JBIG2Decode".spec_bytes() {
        "JBIG2"@
    } else if name == "JPXDecode".spec_bytes() {
        "JPEG2000"@
    } else if name == "LZWDecode".spec_bytes() {
        "LZW"@
    } else if name == "RunLengthDecode".spec_bytes() {
        "RLE"@
    } else {
        utf8_lossy_of(name)
    }
}

/// Whether the bytes `b` are those of the text `lit`.
fn bytes_are(b: &[u8], lit: &str) -> (r: bool)
    ensures
        r == (b@ == lit.spec_bytes()),
{
    let l = lit.as_bytes();
    if b.len() != l.len() {
        assert(b@.len() != l@.len());
        return false;
    }
    let mut i: usize = 0;
    while i < l.len()
        invariant
            b@.len() == l@.len(),
            l@ == lit.spec_bytes(),
            i <= l@.len(),
            forall|k: int| 0 <= k < i ==> b@[k] == l@[k],
        decreases l@.len() - i,
    {
        if b[i] != l[i] {
            assert(b@[i as int] != l@[i as int]);
            return false;
        }
        i = i + 1;
    }
    assert(b@ =~= l@);
    true
}

/// A short label for a stream filter: `JPEG` for `DCTDecode`, `PNG/Deflate`
/// for `FlateDecode`, `TIFF/Fax`, `JBIG2`, `JPEG2000`, `LZW`, `RLE`; any
/// other name as it reads.
pub fn filter_to_label(name: &[u8]) -> (s: String)
    ensures
        s@ == spec_filter_label(name@),
{
    proof {
        reveal_strlit("DCTDecode");
        reveal_strlit("FlateDecode");
        reveal_strlit("CCITTFaxDecode");
        reveal_strlit("JBIG2Decode");
        reveal_strlit("JPXDecode");
        reveal_strlit("LZWDecode");
        reveal_strlit("RunLengthDecode");
    }
    if bytes_are(name, "DCTDecode") {
        String::from_str("JPEG")
    } else if bytes_are(name, "FlateDecode") {
        String::from_str("PNG/Deflate")
    } else if bytes_are(name, "CCITTFaxDecode") {
        String::from_str("TIFF/Fax")
    } else if bytes_are(name, "JBIG2Decode") {
        String::from_str("JBIG2")
    } else if bytes_are(name, "JPXDecode") {
        String::from_str("JPEG2000")
    } else if bytes_are(name, "LZWDecode") {
        String::from_str("LZW")
    } else if bytes_are(name, "RunLengthDecode") {
        String::from_str("RLE")
    } else {
        utf8_lossy(name)
    }
}

/// A colour space as a resource dictionary gives it.
pub enum ColorSpaceValue {
    /// A name, such as `DeviceRGB`.
    Name(Vec<u8>),
    /// An array; its first element's name, if the first element is one.
    Array(Option<Vec<u8>>),
    /// Anything else.
    Other,
}

pub open spec fn spec_cs_label(v: ColorSpaceValue) -> Seq<char> {
    match v {
        ColorSpaceValue::Name(n) => if n@ == "DeviceRGB".spec_bytes() {
            "RGB"@
        } else if n@ == "DeviceCMYK".spec_bytes() {
            "CMYK"@
        } else if n@ == "DeviceGray".spec_bytes() {
            "Gray"@
        } else {
            utf8_lossy_of(n@)
        },
        ColorSpaceValue::Array(Some(n)) => utf8_lossy_of(n@),
        _ => "?"@,
    }
}

/// A short label for a colour space: `RGB`, `CMYK`, `Gray` for the device
/// spaces, another name as it reads, an array by the name it begins with,
/// `?` otherwise.
pub fn cs_to_label(v: &ColorSpaceValue) -> (s: String)
    ensures
        s@ == spec_cs_label(*v),
{
    match v {
        ColorSpaceValue::Name(n) => if bytes_are(n.as_slice(), "DeviceRGB") {
            String::from_str("RGB")
        } else if bytes_are(n.as_slice(), "DeviceCMYK") {
            String::from_str("CMYK")
        } else if bytes_are(n.as_slice(), "DeviceGray") {
            String::from_str("Gray")
        } else {
            utf8_lossy(n.as_slice())
        },
        ColorSpaceValue::Array(Some(n)) => utf8_lossy(n.as_slice()),
        _ => String::from_str("?"),
    }
}

/// The paper size whose sides, in points and rounded, are `a` and `b` in
/// either order: A4, A5, A3, Letter, Legal; empty for any other size.
pub open spec fn spec_page_size_name(a: i64, b: i64) -> Seq<char> {
    let w = if a < b {
        a
    } else {
        b
    };
    let h = if a < b {
        b
    } else {
        a
    };
    if w == 595 && h == 842 {
        "A4"@
    } else if w == 420 && h == 595 {
        "A5"@
    } else if w == 842 && h == 1190 {
        "A3"@
    } else if w == 612 && h == 792 {
        "Letter"@
    } else if w == 612 && h == 1008 {
        "Legal"@
    } else {
        ""@
    }
}

/// The name of a paper size from its two sides (points, rounded to whole
/// numbers), in either order.
pub fn page_size_name(a: i64, b: i64) -> (s: &'static str)
    ensures
        s@ == spec_page_size_name(a, b),
{
    let (w, h) = if a < b {
        (a, b)
    } else {
        (b, a)
    };
    if w == 595 && h == 842 {
        "A4"
    } else if w == 420 && h == 595 {
        "A5"
    } else if w == 842 && h == 1190 {
        "A3"
    } else if w == 612 && h == 792 {
        "Letter"
    } else if w == 612 && h == 1008 {
        "Legal"
    } else {
        ""
    }
}

/// At most `max` characters of `s`: its first `max` characters, or all of
/// it where it is no longer.
pub open spec fn spec_truncate(s: Seq<char>, max: nat) -> Seq<char> {
    if s.len() > max {
        s.take(max as int)
    } else {
        s
    }
}

/// `s` cut to at most `max_chars` characters.
pub fn truncate_str(s: &str, max_chars: usize) -> (r: String)
    ensures
        r@ == spec_truncate(s@, max_chars as nat),
{
    let v = chars_of(s);
    if v.len() > max_chars {
        let mut out: Vec<char> = Vec::new();
        let mut i: usize = 0;
        while i < max_chars
            invariant
                i <= max_chars < v.len(),
                out@ == v@.take(i as int),
            decreases max_chars - i,
        {
            out.push(v[i]);
            i = i + 1;
            assert(out@ =~= v@.take(i as int));
        }
        string_of(&out)
    } else {
        string_of(&v)
    }
}

} // verus!
