//! Backslash escapes in command-line text.
use vstd::prelude::*;
use crate::chars::{chars_of, string_of};

verus! {

/// `s` with `\n`, `\r`, `\t` and `\\` replaced by newline, carriage
/// return, tab and backslash; any other backslash stays as it is.
pub open spec fn spec_unescape(s: Seq<char>) -> Seq<char>
    decreases s.len(),
{
    if s.len() == 0 {
        Seq::empty()
    } else if s[0] == '\\' && s.len() > 1 && (s[1] == 'n' || s[1] == 'r' || s[1] == 't' || s[1]
        == '\\') {
        let c = if s[1] == 'n' {
            '\n'
        } else if s[1] == 'r' {
            '\r'
        } else if s[1] == 't' {
            '\t'
        } else {
            '\\'
        };
        seq![c] + spec_unescape(s.skip(2))
    } else {
        seq![s[0]] + spec_unescape(s.skip(1))
    }
}

/// Resolves the escapes `\n`, `\r`, `\t` and `\\` in `s`.
pub fn unescape(s: &str) -> (r: String)
    ensures
        r@ == spec_unescape(s@),
{
    let v = chars_of(s);
    let mut out: Vec<char> = Vec::new();
    let mut i: usize = 0;
    assert(v@.skip(0) =~= v@);
    assert(out@ + spec_unescape(v@.skip(0)) =~= spec_unescape(v@));
    while i < v.len()
        invariant
            i <= v.len(),
            v@ == s@,
            out@ + spec_unescape(v@.skip(i as int)) == spec_unescape(v@),
        decreases v.len() - i,
    {
        let ghost rest = v@.skip(i as int);
        let c = v[i];
        if c == '\\' && i + 1 < v.len() && (v[i + 1] == 'n' || v[i + 1] == 'r' || v[i + 1] == 't'
            || v[i + 1] == '\\') {
            let n = v[i + 1];
            let e = if n == 'n' {
                '\n'
            } else if n == 'r' {
                '\r'
            } else if n == 't' {
                '\t'
            } else {
                '\\'
            };
            assert(rest.skip(2) =~= v@.skip(i + 2));
            assert(rest[0] == c && rest[1] == n);
            out.push(e);
            i = i + 2;
            assert(out@ + spec_unescape(v@.skip(i as int)) =~= spec_unescape(v@));
        } else {
            assert(rest.skip(1) =~= v@.skip(i + 1));
            assert(rest[0] == c);
            assert(rest.len() > 1 ==> rest[1] == v@[i + 1]);
            out.push(c);
            i = i + 1;
            assert(out@ + spec_unescape(v@.skip(i as int)) =~= spec_unescape(v@));
        }
    }
    assert(v@.skip(i as int) =~= Seq::<char>::empty());
    assert(out@ =~= spec_unescape(v@));
    string_of(&out)
}

/// Text without a backslash comes back unchanged.
pub proof fn lemma_unescape_plain(s: Seq<char>)
    requires
        !s.contains('\\'),
    ensures
        spec_unescape(s) == s,
    decreases s.len(),
{
    if s.len() > 0 {
        assert(s[0] != '\\');
        let t = s.skip(1);
        assert forall|k: int| 0 <= k < t.len() implies t[k] != '\\' by {
            assert(t[k] == s[k + 1]);
        }
        lemma_unescape_plain(t);
        assert(seq![s[0]] + t =~= s);
    }
}

} // verus!
