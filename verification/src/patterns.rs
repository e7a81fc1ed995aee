//! Regular expressions, compiled and applied by the `regex` crate.
use vstd::prelude::*;

verus! {

#[verifier::external_type_specification]
#[verifier::external_body]
pub struct ExRegex(regex::Regex);

/// What `regex::Regex::new` gives for a pattern: `Ok` where it compiles,
/// else the text of its error.
pub uninterp spec fn regex_new_of(p: Seq<char>) -> Result<(), Seq<char>>;

/// What `Regex::is_match` gives for the compiled pattern `p` on `t`.
pub uninterp spec fn regex_is_match_of(p: Seq<char>, t: Seq<char>) -> bool;

/// What `Regex::replace_all` gives for the compiled pattern `p` on `t` with
/// the replacement `r` (where `$name` and `$1` stand for groups).
pub uninterp spec fn regex_replace_all_of(p: Seq<char>, t: Seq<char>, r: Seq<char>) -> Seq<char>;

/// What the group `g` of the first match of the compiled pattern `p` in
/// `t` holds, as `Regex::captures` and `Captures::name` give it.
pub uninterp spec fn regex_capture_of(p: Seq<char>, t: Seq<char>, g: Seq<char>) -> Option<Seq<char>>;

/// A compiled regular expression, with the pattern it was compiled from.
pub struct Pattern {
    source: String,
    re: regex::Regex,
}

impl Pattern {
    /// The pattern this was compiled from.
    pub closed spec fn source(&self) -> Seq<char> {
        self.source@
    }
}

/// `regex::Regex::new`: the compiled pattern, or the text of the error
/// where it does not compile. Which patterns compile, and the error text,
/// are named by `regex_new_of`.
#[verifier::external_body]
pub(crate) fn compile_pattern(p: &str) -> (r: Result<Pattern, String>)
    ensures
        match r {
            Ok(x) => regex_new_of(p@) is Ok && x.source() == p@,
            Err(e) => regex_new_of(p@) == Err::<(), Seq<char>>(e@),
        },
{
    match regex::Regex::new(p) {
        Ok(re) => Ok(Pattern { source: p.to_string(), re }),
        Err(e) => Err(e.to_string()),
    }
}

/// `Regex::is_match`: whether the pattern matches somewhere in `t`. Named
/// by `regex_is_match_of`.
#[verifier::external_body]
pub(crate) fn pattern_is_match(p: &Pattern, t: &str) -> (r: bool)
    ensures
        r == regex_is_match_of(p.source(), t@),
{
    p.re.is_match(t)
}

/// `Regex::replace_all`: `t` with every match replaced by `rep`. Named by
/// `regex_replace_all_of`.
#[verifier::external_body]
pub(crate) fn pattern_replace_all(p: &Pattern, t: &str, rep: &str) -> (r: String)
    ensures
        r@ == regex_replace_all_of(p.source(), t@, rep@),
{
    p.re.replace_all(t, rep).into_owned()
}

/// `Regex::captures` then `Captures::name`: what the named group of the
/// first match holds. Named by `regex_capture_of`.
#[verifier::external_body]
pub(crate) fn pattern_capture(p: &Pattern, t: &str, group: &str) -> (r: Option<String>)
    ensures
        match r {
            Some(s) => regex_capture_of(p.source(), t@, group@) == Some(s@),
            None => regex_capture_of(p.source(), t@, group@) is None,
        },
{
    match p.re.captures(t) {
        Some(c) => match c.name(group) {
            Some(m) => Some(m.as_str().to_string()),
            None => None,
        },
        None => None,
    }
}

} // verus!
