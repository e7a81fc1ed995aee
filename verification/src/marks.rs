//! The rules that tell a watermark annotation, form field, optional-content
//! group or marked-content block from the rest of a page.
use vstd::prelude::*;
use vstd::string::StringSliceAdditionalSpecFns;
use crate::chars::chars_of;
use crate::keywords::{contains_chars, contains_seq, lowercase_of, to_lowercase, utf8_lossy, utf8_lossy_of};
use vstd::utf8::{decode_utf8, valid_utf8};

verus! {

/// What `lopdf::decode_text_string` gives for a string object with the
/// bytes `b`: its text, or `None` where it does not decode.
pub uninterp spec fn text_string_of(b: Seq<u8>) -> Option<Seq<char>>;

/// Whether `b` begins with the bytes `bom`.
pub open spec fn starts_with_bytes(b: Seq<u8>, bom: Seq<u8>) -> bool {
    b.len() >= bom.len() && b.subrange(0, bom.len() as int) == bom
}

/// `lopdf::decode_text_string` on a string object holding `b`: UTF-16BE
/// after the mark `FE FF`, UTF-8 after the mark `EF BB BF`, else
/// PDFDocEncoding. The result is named `text_string_of`. Stated beside the
/// name, as the crate's source shows: after the UTF-8 mark the rest decodes
/// exactly where it is valid UTF-8; without either mark the bytes always
/// decode. The UTF-16 branch and the PDFDocEncoding table are left unsaid.
#[verifier::external_body]
pub(crate) fn text_string(b: &[u8]) -> (r: Option<String>)
    ensures
        match r {
            Some(s) => text_string_of(b@) == Some(s@),
            None => text_string_of(b@) is None,
        },
        starts_with_bytes(b@, seq![0xEFu8, 0xBBu8, 0xBFu8]) ==> (r is Some <==> valid_utf8(
            b@.skip(3),
        )) && (r matches Some(s) ==> s@ == decode_utf8(b@.skip(3))),
        !starts_with_bytes(b@, seq![0xFEu8, 0xFFu8]) && !starts_with_bytes(
            b@,
            seq![0xEFu8, 0xBBu8, 0xBFu8],
        ) ==> r is Some,
{
    let obj = lopdf::Object::String(b.to_vec(), lopdf::StringFormat::Literal);
    match lopdf::decode_text_string(&obj) {
        Ok(s) => Some(s),
        Err(_) => None,
    }
}

/// The lower-cased text of an optional string entry; empty where the entry
/// is missing, is no string, or does not decode.
pub open spec fn entry_text_lower(v: Option<Seq<u8>>) -> Seq<char> {
    match v {
        Some(b) => match text_string_of(b) {
            Some(t) => lowercase_of(t),
            None => lowercase_of(Seq::empty()),
        },
        None => lowercase_of(Seq::empty()),
    }
}

pub open spec fn opt_view(v: Option<Vec<u8>>) -> Option<Seq<u8>> {
    match v {
        Some(b) => Some(b@),
        None => None,
    }
}

fn entry_text_lower_exec(v: &Option<Vec<u8>>) -> (r: Vec<char>)
    ensures
        r@ == entry_text_lower(opt_view(*v)),
{
    let text = match v {
        Some(b) => match text_string(b.as_slice()) {
            Some(t) => t,
            None => String::new(),
        },
        None => String::new(),
    };
    chars_of(to_lowercase(text.as_str()).as_str())
}

/// The keywords, each lower-cased.
pub open spec fn lowered_keywords(keywords: Seq<String>) -> Seq<Seq<char>> {
    keywords.map_values(|k: String| lowercase_of(k@))
}

/// Some of the (lower-cased) keywords `lowered` occurs in `a` or in `b`.
pub open spec fn lowered_keyword_hit(lowered: Seq<Seq<char>>, a: Seq<char>, b: Seq<char>) -> bool {
    exists|k: int|
        0 <= k < lowered.len() && (contains_seq(a, #[trigger] lowered[k]) || contains_seq(b, lowered[k]))
}

/// Some keyword, lower-cased, occurs in one of the lower-cased texts.
pub open spec fn keyword_hit(keywords: Seq<String>, a: Seq<char>, b: Seq<char>) -> bool {
    lowered_keyword_hit(lowered_keywords(keywords), a, b)
}

/// The characters of each string.
pub open spec fn char_seqs(v: Seq<Vec<char>>) -> Seq<Seq<char>> {
    v.map_values(|x: Vec<char>| x@)
}

/// The keywords, each lower-cased.
pub fn lower_keywords(keywords: &[String]) -> (r: Vec<Vec<char>>)
    ensures
        char_seqs(r@) == lowered_keywords(keywords@),
{
    let mut r: Vec<Vec<char>> = Vec::new();
    let mut i: usize = 0;
    while i < keywords.len()
        invariant
            i <= keywords@.len(),
            char_seqs(r@) == lowered_keywords(keywords@.take(i as int)),
        decreases keywords@.len() - i,
    {
        let ghost before = r@;
        r.push(chars_of(to_lowercase(keywords[i].as_str()).as_str()));
        assert(char_seqs(r@) =~= char_seqs(before).push(lowercase_of(keywords@[i as int]@)));
        assert(keywords@.take(i + 1) =~= keywords@.take(i as int).push(keywords@[i as int]));
        assert(lowered_keywords(keywords@.take(i + 1)) =~= lowered_keywords(keywords@.take(i as int)).push(
            lowercase_of(keywords@[i as int]@),
        ));
        i = i + 1;
    }
    assert(keywords@.take(keywords@.len() as int) =~= keywords@);
    r
}

/// Whether one of the lower-cased keywords `lowered` occurs in the text `a`
/// or in the text `b`.
pub fn keyword_in_texts(lowered: &Vec<Vec<char>>, a: &Vec<char>, b: &Vec<char>) -> (r: bool)
    ensures
        r == lowered_keyword_hit(char_seqs(lowered@), a@, b@),
{
    let mut i: usize = 0;
    while i < lowered.len()
        invariant
            i <= lowered@.len(),
            forall|k: int|
                0 <= k < i ==> !(contains_seq(a@, #[trigger] char_seqs(lowered@)[k]) || contains_seq(
                    b@,
                    char_seqs(lowered@)[k],
                )),
        decreases lowered@.len() - i,
    {
        if contains_chars(a, &lowered[i]) || contains_chars(b, &lowered[i]) {
            assert(char_seqs(lowered@)[i as int] == lowered@[i as int]@);
            return true;
        }
        assert(char_seqs(lowered@)[i as int] == lowered@[i as int]@);
        i = i + 1;
    }
    false
}

/// What the watermark test reads of an annotation dictionary.
pub struct AnnotFacts {
    /// The `/Subtype` name; empty where there is none.
    pub subtype: Vec<u8>,
    /// The `/F` flags, where they are an integer.
    pub flags: Option<i64>,
    /// The bytes of the `/Contents` string, where it is a string.
    pub contents: Option<Vec<u8>>,
    /// The bytes of the `/T` string, where it is a string.
    pub title: Option<Vec<u8>>,
    /// The keys of the dictionary.
    pub keys: Vec<Vec<u8>>,
}

/// The private keys by which some producers mark watermark annotations.
pub open spec fn watermark_model_keys() -> Seq<Seq<u8>> {
    seq!["QB_WM_MODEL".spec_bytes(), "WatermarkModel".spec_bytes(), "WMModel".spec_bytes()]
}

/// Annotation flags that print the annotation (`Print`, value 4) while it
/// is hidden (`Hidden`, 2) or not shown on screen (`NoView`, 32).
pub open spec fn flags_say_hidden_print(f: i64) -> bool {
    f & 4 != 0 && (f & 2 != 0 || f & 32 != 0)
}

/// The annotation test on its texts already read and lower-cased: the
/// subtype `sub_lower`, the `/Contents` and `/T` entries, and the keywords
/// `lowered`. Where the user named keywords (`restrict`), an annotation is a
/// watermark only when one of them occurs in its `/Contents` or `/T`.
/// Otherwise it is a watermark when its subtype is `Watermark` or `Stamp`,
/// or names a seal, stamp or watermark; when it is `FreeText` that prints
/// while hidden or not shown; when one of the keywords occurs in its
/// `/Contents` or `/T`; or when it carries one of the private watermark
/// keys.
pub open spec fn spec_annot_rule(
    a: AnnotFacts,
    sub_lower: Seq<char>,
    contents_lower: Seq<char>,
    title_lower: Seq<char>,
    lowered: Seq<Seq<char>>,
    restrict: bool,
) -> bool {
    let sub = a.subtype@;
    if restrict {
        lowered_keyword_hit(lowered, contents_lower, title_lower)
    } else {
        ||| sub == "Watermark".spec_bytes() || sub == "Stamp".spec_bytes()
        ||| contains_seq(sub_lower, "seal"@) || contains_seq(sub_lower, "stamp"@) || contains_seq(
            sub_lower,
            "watermark"@,
        )
        ||| sub == "FreeText".spec_bytes() && flags_say_hidden_print(
            match a.flags {
                Some(f) => f,
                None => 0,
            },
        )
        ||| lowered_keyword_hit(lowered, contents_lower, title_lower)
        ||| exists|k: int|
            0 <= k < a.keys@.len() && watermark_model_keys().contains(#[trigger] a.keys@[k]@)
    }
}

/// Words, each lower-cased.
pub open spec fn lowered_words(w: Seq<Seq<char>>) -> Seq<Seq<char>> {
    w.map_values(|x: Seq<char>| lowercase_of(x))
}

/// The keywords in force, lower-cased: those the user named, or the
/// built-in list where none are named.
pub open spec fn effective_lowered(keywords: Seq<String>) -> Seq<Seq<char>> {
    if keywords.len() > 0 {
        lowered_keywords(keywords)
    } else {
        lowered_words(default_field_words())
    }
}

/// An annotation is a watermark by `spec_annot_rule`, its subtype read as
/// UTF-8 and its `/Contents` and `/T` as text strings, all lower-cased, with
/// the keywords in force; restricted to the keywords where the user named
/// some.
pub open spec fn spec_is_watermark_annot(a: AnnotFacts, keywords: Seq<String>) -> bool {
    spec_annot_rule(
        a,
        lowercase_of(utf8_lossy_of(a.subtype@)),
        entry_text_lower(opt_view(a.contents)),
        entry_text_lower(opt_view(a.title)),
        effective_lowered(keywords),
        keywords.len() > 0,
    )
}

/// The keywords in force, lower-cased: those named, else the built-in list.
pub fn effective_keywords_lower(keywords: &[String]) -> (r: Vec<Vec<char>>)
    ensures
        char_seqs(r@) == effective_lowered(keywords@),
{
    let fk = form_field_keywords(keywords);
    let r = lower_keywords(fk.as_slice());
    proof {
        if keywords@.len() > 0 {
            assert(lowered_keywords(fk@) =~= lowered_keywords(keywords@));
        } else {
            assert(lowered_keywords(fk@) =~= lowered_words(default_field_words()));
        }
    }
    r
}

fn bytes_eq(b: &[u8], lit: &str) -> (r: bool)
    ensures
        r == (b@ == lit.spec_bytes()),
{
    let l = lit.as_bytes();
    if b.len() != l.len() {
        assert(b@.len() != l@.len());
        return false;
    }
    let mut i: usize = 0;
    while i < l.len()
        invariant
            b@.len() == l@.len(),
            l@ == lit.spec_bytes(),
            i <= l@.len(),
            forall|k: int| 0 <= k < i ==> b@[k] == l@[k],
        decreases l@.len() - i,
    {
        if b[i] != l[i] {
            assert(b@[i as int] != l@[i as int]);
            return false;
        }
        i = i + 1;
    }
    assert(b@ =~= l@);
    true
}

/// The annotation test on texts already read and lower-cased (see
/// `spec_annot_rule`). With `restrict`: a keyword in its `/Contents` or
/// `/T`. Otherwise: subtype `Watermark` or `Stamp`; a subtype that names a
/// seal, stamp or watermark; a `FreeText` that prints but is hidden or not
/// shown (`/F` flags `Print` and `Hidden` or `NoView`); a keyword in its
/// `/Contents` or `/T`; or a private watermark key (`QB_WM_MODEL`,
/// `WatermarkModel`, `WMModel`).
pub fn annot_rule(
    a: &AnnotFacts,
    sub_lower: &Vec<char>,
    contents_lower: &Vec<char>,
    title_lower: &Vec<char>,
    lowered: &Vec<Vec<char>>,
    restrict: bool,
) -> (r: bool)
    ensures
        r == spec_annot_rule(*a, sub_lower@, contents_lower@, title_lower@, char_seqs(lowered@), restrict),
{
    if restrict {
        return keyword_in_texts(lowered, contents_lower, title_lower);
    }
    let sub = a.subtype.as_slice();
    if bytes_eq(sub, "Watermark") || bytes_eq(sub, "Stamp") {
        return true;
    }
    if crate::keywords::contains_str(sub_lower, "seal") || crate::keywords::contains_str(
        sub_lower,
        "stamp",
    ) || crate::keywords::contains_str(sub_lower, "watermark") {
        return true;
    }
    if bytes_eq(sub, "FreeText") {
        let f: i64 = match a.flags {
            Some(f) => f,
            None => 0,
        };
        if f & 4 != 0 && (f & 2 != 0 || f & 32 != 0) {
            return true;
        }
    }
    if keyword_in_texts(lowered, contents_lower, title_lower) {
        return true;
    }
    let mut i: usize = 0;
    while i < a.keys.len()
        invariant
            !restrict,
            i <= a.keys@.len(),
            forall|k: int| 0 <= k < i ==> !watermark_model_keys().contains(#[trigger] a.keys@[k]@),
        decreases a.keys@.len() - i,
    {
        let key = a.keys[i].as_slice();
        if bytes_eq(key, "QB_WM_MODEL") || bytes_eq(key, "WatermarkModel") || bytes_eq(
            key,
            "WMModel",
        ) {
            assert(watermark_model_keys()[0] == "QB_WM_MODEL".spec_bytes());
            assert(watermark_model_keys()[1] == "WatermarkModel".spec_bytes());
            assert(watermark_model_keys()[2] == "WMModel".spec_bytes());
            assert(watermark_model_keys().contains(a.keys@[i as int]@));
            return true;
        }
        proof {
            if watermark_model_keys().contains(a.keys@[i as int]@) {
                let j = choose|j: int|
                    0 <= j < 3 && watermark_model_keys()[j] == a.keys@[i as int]@;
                assert(j == 0 || j == 1 || j == 2);
            }
        }
        i = i + 1;
    }
    false
}

/// Whether an annotation is a watermark: `annot_rule` on its subtype read
/// as UTF-8, its `/Contents` and `/T` read as text strings, and the keywords
/// in force (those named, else the built-in list), all lower-cased; only
/// the keyword test counts where keywords are named.
pub fn is_watermark_annot_dict(a: &AnnotFacts, keywords: &[String]) -> (r: bool)
    ensures
        r == spec_is_watermark_annot(*a, keywords@),
{
    let sub_lower = chars_of(to_lowercase(utf8_lossy(a.subtype.as_slice()).as_str()).as_str());
    let contents = entry_text_lower_exec(&a.contents);
    let title = entry_text_lower_exec(&a.title);
    let lowered = effective_keywords_lower(keywords);
    annot_rule(a, &sub_lower, &contents, &title, &lowered, keywords.len() > 0)
}

/// The `/T` and `/TU` entries of a form field, as string bytes where they
/// are strings.
pub struct FieldFacts {
    pub title: Option<Vec<u8>>,
    pub alt_title: Option<Vec<u8>>,
}

/// A form field is a watermark when a keyword (any case) occurs in its
/// `/T` or `/TU`.
pub open spec fn spec_is_watermark_field(f: FieldFacts, keywords: Seq<String>) -> bool {
    keyword_hit(keywords, entry_text_lower(opt_view(f.title)), entry_text_lower(opt_view(f.alt_title)))
}

/// Whether a form field's name (`/T`) or tooltip (`/TU`) contains one of
/// the keywords, ignoring case.
pub fn is_watermark_field(f: &FieldFacts, keywords: &[String]) -> (r: bool)
    ensures
        r == spec_is_watermark_field(*f, keywords@),
{
    let t = entry_text_lower_exec(&f.title);
    let tu = entry_text_lower_exec(&f.alt_title);
    keyword_in_texts(&lower_keywords(keywords), &t, &tu)
}

/// The `/Name` entry of an optional-content group.
pub enum OcgName {
    /// A string, by its bytes.
    Text(Vec<u8>),
    /// A name, by its bytes.
    Name(Vec<u8>),
    /// Missing, or of another kind.
    Other,
}

/// The text of a group's name: a string as it decodes (a string that does
/// not decode counts as empty), a name as it reads.
pub open spec fn ocg_name_text(n: OcgName) -> Seq<char> {
    match n {
        OcgName::Text(b) => match text_string_of(b@) {
            Some(t) => t,
            None => Seq::empty(),
        },
        OcgName::Name(b) => utf8_lossy_of(b@),
        OcgName::Other => Seq::empty(),
    }
}

pub open spec fn spec_ocg_says_watermark(n: OcgName) -> bool {
    contains_seq(lowercase_of(ocg_name_text(n)), "watermark"@)
}

/// Whether an optional-content group's name contains `watermark`, ignoring
/// case.
pub fn check_ocg_name_watermark(n: &OcgName) -> (r: bool)
    ensures
        r == spec_ocg_says_watermark(*n),
{
    let text = match n {
        OcgName::Text(b) => match text_string(b.as_slice()) {
            Some(t) => t,
            None => String::new(),
        },
        OcgName::Name(b) => utf8_lossy(b.as_slice()),
        OcgName::Other => String::new(),
    };
    let low = chars_of(to_lowercase(text.as_str()).as_str());
    crate::keywords::contains_str(&low, "watermark")
}

/// Whether an `/OC` entry marks a watermark: the group it names (first in
/// `names`), or one of the groups its `/OCGs` array lists, is named like a
/// watermark.
pub fn check_oc_watermark(names: &Vec<OcgName>) -> (r: bool)
    ensures
        r == exists|k: int| 0 <= k < names@.len() && spec_ocg_says_watermark(#[trigger] names@[k]),
{
    let mut i: usize = 0;
    while i < names.len()
        invariant
            i <= names@.len(),
            forall|k: int| 0 <= k < i ==> !spec_ocg_says_watermark(#[trigger] names@[k]),
        decreases names@.len() - i,
    {
        if check_ocg_name_watermark(&names[i]) {
            return true;
        }
        i = i + 1;
    }
    false
}

/// Whether a `/PieceInfo` dictionary marks a watermark: one of its entries
/// has `/Private /Watermark`. `privates` holds, for each entry that is a
/// dictionary with a `/Private` name, that name.
pub fn check_piece_info_watermark(privates: &Vec<Vec<u8>>) -> (r: bool)
    ensures
        r == exists|k: int| 0 <= k < privates@.len() && (#[trigger] privates@[k])@ == "Watermark".spec_bytes(),
{
    let mut i: usize = 0;
    while i < privates.len()
        invariant
            i <= privates@.len(),
            forall|k: int| 0 <= k < i ==> (#[trigger] privates@[k])@ != "Watermark".spec_bytes(),
        decreases privates@.len() - i,
    {
        if bytes_eq(privates[i].as_slice(), "Watermark") {
            return true;
        }
        i = i + 1;
    }
    false
}

/// The tag and `/Subtype` of a marked-content operation (`BDC` or `BMC`):
/// the tag is its first operand, where that is a name; the subtype comes
/// from the property dictionary of the second operand (`dict_subtype`, the
/// `/Subtype` name where the second operand is a dictionary that has one),
/// empty otherwise.
pub open spec fn spec_bdc_subtype(
    operator: Seq<char>,
    tag: Option<Seq<u8>>,
    dict_subtype: Option<Seq<u8>>,
) -> Option<(Seq<char>, Seq<char>)> {
    if operator != "BDC"@ && operator != "BMC"@ {
        None
    } else {
        match tag {
            None => None,
            Some(t) => Some(
                (
                    utf8_lossy_of(t),
                    match dict_subtype {
                        Some(s) => utf8_lossy_of(s),
                        None => Seq::empty(),
                    },
                ),
            ),
        }
    }
}

/// The tag and subtype of a `BDC`/`BMC` operation; `None` for another
/// operator or where the first operand is no name.
pub fn parse_bdc_subtype(operator: &str, tag: Option<&[u8]>, dict_subtype: Option<&[u8]>) -> (r:
    Option<(String, String)>)
    ensures
        match spec_bdc_subtype(
            operator@,
            match tag {
                Some(t) => Some(t@),
                None => None,
            },
            match dict_subtype {
                Some(s) => Some(s@),
                None => None,
            },
        ) {
            Some((a, b)) => r matches Some(x) && x.0@ == a && x.1@ == b,
            None => r is None,
        },
{
    let o = chars_of(operator);
    if !crate::chars::eq_str(&o, "BDC") && !crate::chars::eq_str(&o, "BMC") {
        return None;
    }
    let t = match tag {
        Some(t) => utf8_lossy(t),
        None => {
            return None;
        },
    };
    let s = match dict_subtype {
        Some(s) => utf8_lossy(s),
        None => String::new(),
    };
    Some((t, s))
}

/// The built-in watermark keywords, used where the user names none.
pub open spec fn default_field_words() -> Seq<Seq<char>> {
    seq!["watermark"@, "水印"@, "draft"@, "草稿"@, "confidential"@, "机密"@, "sample"@, "示例"@]
}

/// The keywords in force: those given, or the built-in
/// list (`watermark`, `水印`, `draft`, `草稿`, `confidential`, `机密`,
/// `sample`, `示例`) where none are given.
pub fn form_field_keywords(keywords: &[String]) -> (r: Vec<String>)
    ensures
        keywords@.len() > 0 ==> r@.len() == keywords@.len() && forall|k: int|
            0 <= k < r@.len() ==> (#[trigger] r@[k])@ == keywords@[k]@,
        keywords@.len() == 0 ==> r@.len() == default_field_words().len() && forall|k: int|
            0 <= k < r@.len() ==> (#[trigger] r@[k])@ == default_field_words()[k],
{
    let mut out: Vec<String> = Vec::new();
    if keywords.len() > 0 {
        let mut i: usize = 0;
        while i < keywords.len()
            invariant
                i <= keywords@.len(),
                out@.len() == i,
                forall|k: int| 0 <= k < i ==> (#[trigger] out@[k])@ == keywords@[k]@,
            decreases keywords@.len() - i,
        {
            out.push(crate::chars::string_of(&chars_of(keywords[i].as_str())));
            i = i + 1;
        }
        return out;
    }
    out.push(String::from_str("watermark"));
    out.push(String::from_str("水印"));
    out.push(String::from_str("draft"));
    out.push(String::from_str("草稿"));
    out.push(String::from_str("confidential"));
    out.push(String::from_str("机密"));
    out.push(String::from_str("sample"));
    out.push(String::from_str("示例"));
    out
}

/// One of the (lower-cased) keywords `lowered` occurs in `t`.
pub open spec fn has_keyword(lowered: Seq<Seq<char>>, t: Seq<char>) -> bool {
    exists|k: int| 0 <= k < lowered.len() && contains_seq(t, #[trigger] lowered[k])
}

/// Whether one of the lower-cased keywords `lowered` occurs in `t`.
pub fn text_has_keyword(lowered: &Vec<Vec<char>>, t: &Vec<char>) -> (r: bool)
    ensures
        r == has_keyword(char_seqs(lowered@), t@),
{
    let mut i: usize = 0;
    while i < lowered.len()
        invariant
            i <= lowered@.len(),
            forall|k: int| 0 <= k < i ==> !contains_seq(t@, #[trigger] char_seqs(lowered@)[k]),
        decreases lowered@.len() - i,
    {
        assert(char_seqs(lowered@)[i as int] == lowered@[i as int]@);
        if contains_chars(t, &lowered[i]) {
            return true;
        }
        i = i + 1;
    }
    false
}

/// Whether the lower case of the resource name `name` holds one of the
/// keywords in force (those named, else the built-in list), lower-cased.
pub fn name_has_keyword(name: &str, keywords: &[String]) -> (r: bool)
    ensures
        r == has_keyword(effective_lowered(keywords@), lowercase_of(name@)),
{
    let kl = effective_keywords_lower(keywords);
    text_has_keyword(&kl, &chars_of(to_lowercase(name).as_str()))
}

/// An entry of a page's `/Annots` array, as the removal reads it: a
/// reference (object number, generation, and whether the annotation it
/// names is a watermark), an inline annotation dictionary (whether it is a
/// watermark), or anything else.
#[derive(Debug, Clone, Copy, PartialEq, Eq)]
pub enum AnnotEntry {
    Ref(u32, u16, bool),
    Inline(bool),
    Other,
}

/// The referenced watermark annotations among the first `n` entries, in
/// order.
pub open spec fn removed_refs(e: Seq<AnnotEntry>, n: int) -> Seq<(u32, u16)>
    decreases n,
{
    if n <= 0 {
        Seq::empty()
    } else {
        let p = removed_refs(e, n - 1);
        match e[n - 1] {
            AnnotEntry::Ref(num, generation, true) => p.push((num, generation)),
            _ => p,
        }
    }
}

/// The positions of the inline watermark annotations among the first `n`
/// entries, increasing.
pub open spec fn removed_inline(e: Seq<AnnotEntry>, n: int) -> Seq<usize>
    decreases n,
{
    if n <= 0 {
        Seq::empty()
    } else {
        let p = removed_inline(e, n - 1);
        match e[n - 1] {
            AnnotEntry::Inline(true) => p.push((n - 1) as usize),
            _ => p,
        }
    }
}

/// What leaves a page's `/Annots` array: the watermark annotations it
/// refers to (to be taken out of the array and deleted), and the positions
/// of the inline watermark annotations in the array, in increasing order.
pub fn annot_removal(entries: &Vec<AnnotEntry>) -> (r: (Vec<(u32, u16)>, Vec<usize>))
    ensures
        r.0@ == removed_refs(entries@, entries@.len() as int),
        r.1@ == removed_inline(entries@, entries@.len() as int),
{
    let mut refs: Vec<(u32, u16)> = Vec::new();
    let mut inline: Vec<usize> = Vec::new();
    let mut i: usize = 0;
    while i < entries.len()
        invariant
            i <= entries@.len(),
            refs@ == removed_refs(entries@, i as int),
            inline@ == removed_inline(entries@, i as int),
        decreases entries@.len() - i,
    {
        match entries[i] {
            AnnotEntry::Ref(num, generation, true) => refs.push((num, generation)),
            AnnotEntry::Inline(true) => inline.push(i),
            _ => {},
        }
        i = i + 1;
    }
    (refs, inline)
}

/// Whether an entry leaves the array: a watermark annotation, referenced or
/// inline.
pub open spec fn entry_leaves(e: AnnotEntry) -> bool {
    e matches AnnotEntry::Ref(_, _, true) || e matches AnnotEntry::Inline(true)
}

/// The positions of the entries among the first `n` that stay, increasing.
pub open spec fn kept_positions(e: Seq<AnnotEntry>, n: int) -> Seq<usize>
    decreases n,
{
    if n <= 0 {
        Seq::empty()
    } else {
        let p = kept_positions(e, n - 1);
        if entry_leaves(e[n - 1]) {
            p
        } else {
            p.push((n - 1) as usize)
        }
    }
}

/// The positions, in the original `/Annots` array and in increasing order,
/// of the entries that stay: every entry that is not a watermark annotation,
/// including those that are neither a reference nor a dictionary.
pub fn annot_kept(entries: &Vec<AnnotEntry>) -> (r: Vec<usize>)
    ensures
        r@ == kept_positions(entries@, entries@.len() as int),
{
    let mut kept: Vec<usize> = Vec::new();
    let mut i: usize = 0;
    while i < entries.len()
        invariant
            i <= entries@.len(),
            kept@ == kept_positions(entries@, i as int),
        decreases entries@.len() - i,
    {
        let leaves = match entries[i] {
            AnnotEntry::Ref(_, _, true) => true,
            AnnotEntry::Inline(true) => true,
            _ => false,
        };
        if !leaves {
            kept.push(i);
        }
        i = i + 1;
    }
    kept
}

/// The annotation rule with the user's keywords and without. With none
/// named, an annotation is a watermark when its `/Contents` or `/T` (decoded
/// and lower-cased) contains one of the built-in words `watermark`, `水印`,
/// `draft`, `草稿`, `confidential`, `机密`, `sample`, `示例` (lower-cased),
/// when it carries one of the keys `QB_WM_MODEL`, `WatermarkModel`,
/// `WMModel`, when its subtype is `Watermark` or `Stamp`, or when it is a
/// `FreeText` that prints while hidden or not shown. With keywords named, it
/// is a watermark exactly when one of them (lower-cased) occurs in its
/// `/Contents` or `/T`.
pub proof fn lemma_annotation_rule(a: AnnotFacts, keywords: Seq<String>)
    ensures
        ({
            let c = entry_text_lower(opt_view(a.contents));
            let t = entry_text_lower(opt_view(a.title));
            keywords.len() == 0 && (contains_seq(c, lowercase_of("watermark"@)) || contains_seq(t, lowercase_of("watermark"@)) || contains_seq(c, lowercase_of("水印"@)) || contains_seq(t, lowercase_of("水印"@)) || contains_seq(c, lowercase_of("draft"@)) || contains_seq(t, lowercase_of("draft"@)) || contains_seq(c, lowercase_of("草稿"@)) || contains_seq(t, lowercase_of("草稿"@)) || contains_seq(c, lowercase_of("confidential"@)) || contains_seq(t, lowercase_of("confidential"@)) || contains_seq(c, lowercase_of("机密"@)) || contains_seq(t, lowercase_of("机密"@)) || contains_seq(c, lowercase_of("sample"@)) || contains_seq(t, lowercase_of("sample"@)) || contains_seq(c, lowercase_of("示例"@)) || contains_seq(t, lowercase_of("示例"@)))
        }) ==> spec_is_watermark_annot(a, keywords),
        keywords.len() == 0 && (exists|k: int|
            0 <= k < a.keys@.len() && (a.keys@[k]@ == "QB_WM_MODEL".spec_bytes() || a.keys@[k]@ == "WatermarkModel".spec_bytes() || a.keys@[k]@ == "WMModel".spec_bytes())) ==> spec_is_watermark_annot(a, keywords),
        keywords.len() == 0 && (a.subtype@ == "Watermark".spec_bytes() || a.subtype@
            == "Stamp".spec_bytes()) ==> spec_is_watermark_annot(a, keywords),
        keywords.len() == 0 && a.subtype@ == "FreeText".spec_bytes() && (a.flags matches Some(f)
            && f & 4 != 0 && (f & 2 != 0 || f & 32 != 0)) ==> spec_is_watermark_annot(a, keywords),
        keywords.len() > 0 ==> (spec_is_watermark_annot(a, keywords) <==> keyword_hit(
            keywords,
            entry_text_lower(opt_view(a.contents)),
            entry_text_lower(opt_view(a.title)),
        )),
{
    let c = entry_text_lower(opt_view(a.contents));
    let t = entry_text_lower(opt_view(a.title));
    let lw = lowered_words(default_field_words());
    assert(lw[0] == lowercase_of("watermark"@));
    if contains_seq(c, lowercase_of("watermark"@)) || contains_seq(t, lowercase_of("watermark"@)) {
        assert(contains_seq(c, lw[0]) || contains_seq(t, lw[0]));
    }
    assert(lw[1] == lowercase_of("水印"@));
    if contains_seq(c, lowercase_of("水印"@)) || contains_seq(t, lowercase_of("水印"@)) {
        assert(contains_seq(c, lw[1]) || contains_seq(t, lw[1]));
    }
    assert(lw[2] == lowercase_of("draft"@));
    if contains_seq(c, lowercase_of("draft"@)) || contains_seq(t, lowercase_of("draft"@)) {
        assert(contains_seq(c, lw[2]) || contains_seq(t, lw[2]));
    }
    assert(lw[3] == lowercase_of("草稿"@));
    if contains_seq(c, lowercase_of("草稿"@)) || contains_seq(t, lowercase_of("草稿"@)) {
        assert(contains_seq(c, lw[3]) || contains_seq(t, lw[3]));
    }
    assert(lw[4] == lowercase_of("confidential"@));
    if contains_seq(c, lowercase_of("confidential"@)) || contains_seq(t, lowercase_of("confidential"@)) {
        assert(contains_seq(c, lw[4]) || contains_seq(t, lw[4]));
    }
    assert(lw[5] == lowercase_of("机密"@));
    if contains_seq(c, lowercase_of("机密"@)) || contains_seq(t, lowercase_of("机密"@)) {
        assert(contains_seq(c, lw[5]) || contains_seq(t, lw[5]));
    }
    assert(lw[6] == lowercase_of("sample"@));
    if contains_seq(c, lowercase_of("sample"@)) || contains_seq(t, lowercase_of("sample"@)) {
        assert(contains_seq(c, lw[6]) || contains_seq(t, lw[6]));
    }
    assert(lw[7] == lowercase_of("示例"@));
    if contains_seq(c, lowercase_of("示例"@)) || contains_seq(t, lowercase_of("示例"@)) {
        assert(contains_seq(c, lw[7]) || contains_seq(t, lw[7]));
    }
    assert(watermark_model_keys()[0] == "QB_WM_MODEL".spec_bytes());
    assert(watermark_model_keys()[1] == "WatermarkModel".spec_bytes());
    assert(watermark_model_keys()[2] == "WMModel".spec_bytes());
    if exists|k: int| 0 <= k < a.keys@.len() && (a.keys@[k]@ == "QB_WM_MODEL".spec_bytes() || a.keys@[k]@ == "WatermarkModel".spec_bytes() || a.keys@[k]@ == "WMModel".spec_bytes()) {
        let k = choose|k: int| 0 <= k < a.keys@.len() && (a.keys@[k]@ == "QB_WM_MODEL".spec_bytes() || a.keys@[k]@ == "WatermarkModel".spec_bytes() || a.keys@[k]@ == "WMModel".spec_bytes());
        assert(watermark_model_keys().contains(a.keys@[k]@));
    }
}

} // verus!
