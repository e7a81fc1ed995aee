//! Replacing text inside the strings that a page shows.
use vstd::prelude::*;
use crate::chars::{chars_of, string_of};
use crate::cmap::{split_text, split_text_chars};
use crate::escape::{spec_unescape, unescape};
use crate::headings::char_seq_views;
use crate::keywords::{utf8_lossy, utf8_lossy_of};
use crate::patterns::{compile_pattern, pattern_replace_all, regex_new_of, regex_replace_all_of};

verus! {

/// The pieces joined with `sep` between each two.
pub open spec fn join_with(pieces: Seq<Seq<char>>, sep: Seq<char>) -> Seq<char>
    decreases pieces.len(),
{
    if pieces.len() == 0 {
        Seq::empty()
    } else if pieces.len() == 1 {
        pieces[0]
    } else {
        join_with(pieces.drop_last(), sep) + sep + pieces.last()
    }
}

/// `to` before each character of `s` and once more at the end.
pub open spec fn interleave(s: Seq<char>, to: Seq<char>) -> Seq<char>
    decreases s.len(),
{
    if s.len() == 0 {
        to
    } else {
        interleave(s.drop_last(), to) + seq![s.last()] + to
    }
}

/// `str::replace`: every occurrence of `from` (left to right, without
/// overlap) replaced by `to`; an empty `from` matches before each character
/// and at the end.
pub open spec fn spec_replace(s: Seq<char>, from: Seq<char>, to: Seq<char>) -> Seq<char> {
    if from.len() == 0 {
        interleave(s, to)
    } else {
        join_with(split_text(s, from), to)
    }
}

/// `s` with every occurrence of `from` replaced by `to`.
pub fn replace_text(s: &str, from: &str, to: &str) -> (r: String)
    ensures
        r@ == spec_replace(s@, from@, to@),
{
    let v = chars_of(s);
    let f = chars_of(from);
    let t = chars_of(to);
    let mut out: Vec<char> = Vec::new();
    if f.len() == 0 {
        let mut tt = t.clone();
        out.append(&mut tt);
        let mut i: usize = 0;
        assert(out@ =~= interleave(v@.take(0), t@));
        while i < v.len()
            invariant
                i <= v.len(),
                out@ == interleave(v@.take(i as int), t@),
            decreases v.len() - i,
        {
            assert(v@.take(i + 1).drop_last() =~= v@.take(i as int));
            let ghost before = out@;
            out.push(v[i]);
            let mut tt = t.clone();
            out.append(&mut tt);
            assert(out@ =~= before + seq![v@[i as int]] + t@);
            i = i + 1;
        }
        assert(v@.take(v.len() as int) =~= v@);
        return string_of(&out);
    }
    let pieces = split_text_chars(&v, &f);
    let ghost ps = char_seq_views(pieces@);
    let mut i: usize = 0;
    assert(out@ =~= join_with(ps.take(0), t@));
    while i < pieces.len()
        invariant
            ps == char_seq_views(pieces@),
            i <= pieces.len(),
            out@ == join_with(ps.take(i as int), t@),
        decreases pieces.len() - i,
    {
        assert(ps.take(i + 1).drop_last() =~= ps.take(i as int));
        assert(ps.take(i + 1).last() == pieces@[i as int]@);
        let ghost before = out@;
        if i > 0 {
            let mut tt = t.clone();
            out.append(&mut tt);
        }
        let mut piece = pieces[i].clone();
        out.append(&mut piece);
        if i > 0 {
            assert(out@ =~= before + t@ + pieces@[i as int]@);
        } else {
            assert(ps.take(1).len() == 1);
            assert(out@ =~= pieces@[0]@);
        }
        i = i + 1;
    }
    assert(ps.take(pieces.len() as int) =~= ps);
    string_of(&out)
}

/// What editing one shown string gives: its bytes read as text (invalid
/// UTF-8 replaced), then the unescaped `old` replaced by the unescaped
/// `new` (as a regular expression where `use_regex`); `Ok(None)` where the
/// text does not change, `Err` with the error where the pattern does not
/// compile.
pub open spec fn spec_edit_string(
    bytes: Seq<u8>,
    old: Seq<char>,
    new: Seq<char>,
    use_regex: bool,
) -> Result<Option<Seq<char>>, Seq<char>> {
    let text = utf8_lossy_of(bytes);
    let o = spec_unescape(old);
    let n = spec_unescape(new);
    if use_regex {
        match regex_new_of(o) {
            Err(e) => Err(e),
            Ok(_) => {
                let u = regex_replace_all_of(o, text, n);
                if u == text {
                    Ok(None)
                } else {
                    Ok(Some(u))
                }
            },
        }
    } else {
        let u = spec_replace(text, o, n);
        if u == text {
            Ok(None)
        } else {
            Ok(Some(u))
        }
    }
}

fn same_text(a: &String, b: &String) -> (r: bool)
    ensures
        r == (a@ == b@),
{
    crate::chars::eq_str(&chars_of(a.as_str()), b.as_str())
}

/// Edits one string shown by `Tj`/`TJ`: the replaced text where the
/// replacement changes it, `None` where it does not.
pub fn edit_shown_string(bytes: &[u8], old: &str, new: &str, use_regex: bool) -> (r: Result<
    Option<String>,
    String,
>)
    ensures
        match spec_edit_string(bytes@, old@, new@, use_regex) {
            Ok(Some(u)) => r matches Ok(Some(x)) && x@ == u,
            Ok(None) => r matches Ok(None),
            Err(e) => r matches Err(x) && x@ == e,
        },
{
    let text = utf8_lossy(bytes);
    let o = unescape(old);
    let n = unescape(new);
    let updated = if use_regex {
        match compile_pattern(o.as_str()) {
            Ok(re) => pattern_replace_all(&re, text.as_str(), n.as_str()),
            Err(e) => {
                return Err(e);
            },
        }
    } else {
        replace_text(text.as_str(), o.as_str(), n.as_str())
    };
    Ok(changed_text(&text, updated))
}

/// The outcome of an edit that turned `text` into `updated`: `None` where
/// nothing changed, else the new text.
pub fn changed_text(text: &String, updated: String) -> (r: Option<String>)
    ensures
        updated@ == text@ ==> r is None,
        updated@ != text@ ==> r == Some(updated),
{
    if same_text(&updated, text) {
        None
    } else {
        Some(updated)
    }
}

} // verus!
