//! Keyword matching on text: Unicode lower case, lossy UTF-8 decoding and
//! substring search.
use vstd::prelude::*;
use vstd::utf8::{decode_utf8, valid_utf8};

verus! {

/// Unicode lower case of `s`, as `str::to_lowercase` computes it.
pub uninterp spec fn lowercase_of(s: Seq<char>) -> Seq<char>;

/// The text of `b` read as UTF-8, each invalid sequence replaced by U+FFFD,
/// as `String::from_utf8_lossy` computes it.
pub uninterp spec fn utf8_lossy_of(b: Seq<u8>) -> Seq<char>;

/// `str::to_lowercase`: the Unicode lower case of `s`. Its result is named
/// `lowercase_of`; nothing more is claimed of it.
#[verifier::external_body]
pub(crate) fn to_lowercase(s: &str) -> (r: String)
    ensures
        r@ == lowercase_of(s@),
{
    s.to_lowercase()
}

/// `String::from_utf8_lossy`: the bytes read as UTF-8, invalid sequences
/// replaced. Its result is named `utf8_lossy_of`; std documents that valid
/// UTF-8 is decoded as it stands, which is stated.
#[verifier::external_body]
pub(crate) fn utf8_lossy(b: &[u8]) -> (r: String)
    ensures
        r@ == utf8_lossy_of(b@),
        valid_utf8(b@) ==> r@ == decode_utf8(b@),
{
    String::from_utf8_lossy(b).into_owned()
}

/// Whether `needle` occurs in `hay` as a contiguous piece.
pub open spec fn contains_seq<T>(hay: Seq<T>, needle: Seq<T>) -> bool {
    exists|i: int| 0 <= i <= hay.len() - needle.len() && #[trigger] hay.subrange(i, i + needle.len()) == needle
}

/// Whether `needle` occurs in `hay`.
pub fn contains_chars(hay: &Vec<char>, needle: &Vec<char>) -> (r: bool)
    ensures
        r == contains_seq(hay@, needle@),
{
    if needle.len() > hay.len() {
        return false;
    }
    let mut i: usize = 0;
    while i <= hay.len() - needle.len()
        invariant
            needle.len() <= hay.len(),
            i <= hay.len() - needle.len() + 1,
            forall|j: int| 0 <= j < i ==> #[trigger] hay@.subrange(j, j + needle.len()) != needle@,
        decreases hay.len() - needle.len() + 1 - i,
    {
        let mut k: usize = 0;
        let mut same = true;
        while k < needle.len()
            invariant
                needle.len() <= hay.len(),
                i <= hay.len() - needle.len(),
                k <= needle.len(),
                same == forall|m: int| 0 <= m < k ==> hay@[i + m] == needle@[m],
            decreases needle.len() - k,
        {
            if hay[i + k] != needle[k] {
                same = false;
            }
            k = k + 1;
        }
        if same {
            assert(hay@.subrange(i as int, i + needle.len()) =~= needle@);
            return true;
        }
        proof {
            let m = choose|m: int| 0 <= m < needle.len() && hay@[i + m] != needle@[m];
            assert(hay@.subrange(i as int, i + needle.len())[m] != needle@[m]);
        }
        i = i + 1;
    }
    false
}

/// Whether `needle` occurs in `hay`.
pub fn contains_bytes(hay: &[u8], needle: &[u8]) -> (r: bool)
    ensures
        r == contains_seq(hay@, needle@),
{
    if needle.len() > hay.len() {
        return false;
    }
    let mut i: usize = 0;
    while i <= hay.len() - needle.len()
        invariant
            needle.len() <= hay.len(),
            i <= hay.len() - needle.len() + 1,
            forall|j: int| 0 <= j < i ==> #[trigger] hay@.subrange(j, j + needle.len()) != needle@,
        decreases hay.len() - needle.len() + 1 - i,
    {
        let mut k: usize = 0;
        let mut same = true;
        while k < needle.len()
            invariant
                needle.len() <= hay.len(),
                i <= hay.len() - needle.len(),
                k <= needle.len(),
                same == forall|m: int| 0 <= m < k ==> hay@[i + m] == needle@[m],
            decreases needle.len() - k,
        {
            if hay[i + k] != needle[k] {
                same = false;
            }
            k = k + 1;
        }
        if same {
            assert(hay@.subrange(i as int, i + needle.len()) =~= needle@);
            return true;
        }
        proof {
            let m = choose|m: int| 0 <= m < needle.len() && hay@[i + m] != needle@[m];
            assert(hay@.subrange(i as int, i + needle.len())[m] != needle@[m]);
        }
        i = i + 1;
    }
    false
}

/// Whether `s` contains the text `lit`.
pub fn contains_str(s: &Vec<char>, lit: &str) -> (r: bool)
    ensures
        r == contains_seq(s@, lit@),
{
    contains_chars(s, &crate::chars::chars_of(lit))
}

/// The keywords that mark a form's content as a watermark.
pub open spec fn form_watermark_words() -> Seq<Seq<char>> {
    seq!["watermark"@, "水印"@, "draft"@, "草稿"@, "confidential"@, "机密"@]
}

/// Whether the text `low` contains one of the form watermark keywords.
pub open spec fn has_form_word(low: Seq<char>) -> bool {
    exists|k: int| 0 <= k < form_watermark_words().len() && contains_seq(low, #[trigger] form_watermark_words()[k])
}

/// Whether the lower-cased text of a form's content preview contains one of
/// the watermark keywords.
pub open spec fn spec_is_form_content_watermark(preview: Seq<u8>) -> bool {
    has_form_word(lowercase_of(utf8_lossy_of(preview)))
}

/// Whether the (lower-cased) text `low` holds one of the words
/// `watermark`, `水印`, `draft`, `草稿`, `confidential`, `机密`.
pub fn has_form_watermark_word(low: &Vec<char>) -> (r: bool)
    ensures
        r == has_form_word(low@),
{
    let r = contains_str(low, "watermark") || contains_str(low, "水印") || contains_str(low, "draft")
        || contains_str(low, "草稿") || contains_str(low, "confidential") || contains_str(low, "机密");
    proof {
        let w = form_watermark_words();
        assert(w[0] == "watermark"@);
        assert(w[1] == "水印"@);
        assert(w[2] == "draft"@);
        assert(w[3] == "草稿"@);
        assert(w[4] == "confidential"@);
        assert(w[5] == "机密"@);
    }
    r
}

/// Whether a form XObject's content preview, read as text and lower-cased,
/// holds one of the words `watermark`, `水印`, `draft`, `草稿`,
/// `confidential`, `机密`.
pub fn is_form_content_watermark(preview: &[u8]) -> (r: bool)
    ensures
        r == spec_is_form_content_watermark(preview@),
{
    let text = utf8_lossy(preview);
    let low = to_lowercase(text.as_str());
    has_form_watermark_word(&crate::chars::chars_of(low.as_str()))
}

/// A form's content preview counts as a watermark exactly when its text,
/// read as UTF-8 and lower-cased, contains `watermark`, `水印`, `draft`,
/// `草稿`, `confidential` or `机密`.
pub proof fn lemma_form_content_words(preview: Seq<u8>)
    ensures
        ({
            let low = lowercase_of(utf8_lossy_of(preview));
            contains_seq(low, "watermark"@) || contains_seq(low, "水印"@) || contains_seq(low, "draft"@) || contains_seq(low, "草稿"@) || contains_seq(low, "confidential"@) || contains_seq(low, "机密"@)
        }) <==> spec_is_form_content_watermark(preview),
{
    let low = lowercase_of(utf8_lossy_of(preview));
    let w = form_watermark_words();
    assert(w[0] == "watermark"@);
    if contains_seq(low, "watermark"@) {
        assert(contains_seq(low, w[0]));
    }
    assert(w[1] == "水印"@);
    if contains_seq(low, "水印"@) {
        assert(contains_seq(low, w[1]));
    }
    assert(w[2] == "draft"@);
    if contains_seq(low, "draft"@) {
        assert(contains_seq(low, w[2]));
    }
    assert(w[3] == "草稿"@);
    if contains_seq(low, "草稿"@) {
        assert(contains_seq(low, w[3]));
    }
    assert(w[4] == "confidential"@);
    if contains_seq(low, "confidential"@) {
        assert(contains_seq(low, w[4]));
    }
    assert(w[5] == "机密"@);
    if contains_seq(low, "机密"@) {
        assert(contains_seq(low, w[5]));
    }
    if has_form_word(low) {
        let k = choose|k: int| 0 <= k < w.len() && contains_seq(low, #[trigger] w[k]);
        assert(0 <= k < 6);
    }
}

/// Whether the lower case of `name` contains `watermark`.
pub open spec fn spec_name_says_watermark(name: Seq<char>) -> bool {
    contains_seq(lowercase_of(name), "watermark"@)
}

/// Whether the lower case of `name` contains `watermark`.
pub fn name_says_watermark(name: &String) -> (r: bool)
    ensures
        r == spec_name_says_watermark(name@),
{
    let low = to_lowercase(name.as_str());
    contains_str(&crate::chars::chars_of(low.as_str()), "watermark")
}

} // verus!
