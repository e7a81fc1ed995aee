//! Page-number lists: `"1,3,5-10"` specifications and page selection.
use vstd::prelude::*;
use crate::chars::{chars_of, string_of};
use crate::text::{
    decimal_value, digit_value, is_digit, is_ws, lemma_split_on_join, number_fault, parse_unsigned, trim_end,
    trim_start, unsigned_digits, read_unsigned_chars, seq_views, split_chars, split_on,
    trim, trim_chars, NumberError,
};

verus! {

/// Why a page specification was refused.
#[derive(Debug, Clone, PartialEq, Eq)]
pub enum PageSpecError {
    /// A range part, given trimmed, does not consist of exactly two numbers
    /// around one `-`.
    BadRange(String),
    /// A range part, given trimmed, starts after it ends.
    ReversedRange(String),
    /// A page number is not an unsigned 32-bit decimal number, for the reason
    /// given.
    BadNumber(NumberError),
}

/// What a refusal of a page specification says, the part as characters.
pub enum PageFault {
    BadRange(Seq<char>),
    ReversedRange(Seq<char>),
    BadNumber(NumberError),
}

impl View for PageSpecError {
    type V = PageFault;

    open spec fn view(&self) -> PageFault {
        match self {
            PageSpecError::BadRange(t) => PageFault::BadRange(t@),
            PageSpecError::ReversedRange(t) => PageFault::ReversedRange(t@),
            PageSpecError::BadNumber(k) => PageFault::BadNumber(*k),
        }
    }
}

pub open spec fn u32_max() -> nat {
    0xffff_ffffnat
}

/// The inclusive page range that one comma-separated part stands for.
pub open spec fn spec_page_part(p: Seq<char>) -> Result<(u32, u32), PageFault> {
    let t = trim(p);
    if t.contains('-') {
        let r = split_on(t, '-');
        if r.len() != 2 {
            Err(PageFault::BadRange(t))
        } else {
            match parse_unsigned(trim(r[0]), u32_max()) {
                None => Err(PageFault::BadNumber(number_fault(trim(r[0]), u32_max()))),
                Some(a) => match parse_unsigned(trim(r[1]), u32_max()) {
                    None => Err(PageFault::BadNumber(number_fault(trim(r[1]), u32_max()))),
                    Some(b) => if a > b {
                        Err(PageFault::ReversedRange(t))
                    } else {
                        Ok((a as u32, b as u32))
                    },
                },
            }
        }
    } else {
        match parse_unsigned(t, u32_max()) {
            None => Err(PageFault::BadNumber(number_fault(t, u32_max()))),
            Some(n) => Ok((n as u32, n as u32)),
        }
    }
}

/// The ranges of all parts, or the error of the first part that fails.
pub open spec fn spec_page_parts(parts: Seq<Seq<char>>) -> Result<Seq<(u32, u32)>, PageFault>
    decreases parts.len(),
{
    if parts.len() == 0 {
        Ok(Seq::empty())
    } else {
        match spec_page_parts(parts.drop_last()) {
            Err(e) => Err(e),
            Ok(rs) => match spec_page_part(parts.last()) {
                Err(e) => Err(e),
                Ok(r) => Ok(rs.push(r)),
            },
        }
    }
}

/// The ranges that a page specification such as `"1,3,5-10"` stands for.
pub open spec fn spec_page_ranges(s: Seq<char>) -> Result<Seq<(u32, u32)>, PageFault> {
    spec_page_parts(split_on(s, ','))
}

/// Whether page `p` lies in one of the inclusive ranges `r`.
pub open spec fn in_ranges(r: Seq<(u32, u32)>, p: u32) -> bool {
    exists|k: int| 0 <= k < r.len() && (#[trigger] r[k]).0 <= p <= r[k].1
}

pub open spec fn strictly_increasing(v: Seq<u32>) -> bool {
    forall|i: int, j: int| 0 <= i < j < v.len() ==> v[i] < v[j]
}

pub open spec fn ranges_ordered(r: Seq<(u32, u32)>) -> bool {
    forall|k: int| 0 <= k < r.len() ==> (#[trigger] r[k]).0 <= r[k].1
}

/// The pages of `r` in increasing order, each once.
pub open spec fn is_sorted_union(v: Seq<u32>, r: Seq<(u32, u32)>) -> bool {
    &&& strictly_increasing(v)
    &&& forall|p: u32| v.contains(p) <==> in_ranges(r, p)
}

/// The pages that lie in any of the ranges, in increasing order, each once.
fn sorted_union(r: &Vec<(u32, u32)>) -> (v: Vec<u32>)
    requires
        ranges_ordered(r@),
    ensures
        is_sorted_union(v@, r@),
{
    let mut out: Vec<u32> = Vec::new();
    let mut cur: u64 = 0;
    loop
        invariant_except_break
            forall|i: int| 0 <= i < out.len() ==> out@[i] < cur,
        invariant
            ranges_ordered(r@),
            cur <= 0x1_0000_0000u64,
            strictly_increasing(out@),
            forall|p: u32| p < cur ==> (out@.contains(p) <==> in_ranges(r@, p)),
        ensures
            is_sorted_union(out@, r@),
        decreases 0x1_0000_0000u64 - cur,
    {
        let mut best: Option<u64> = None;
        let mut k: usize = 0;
        while k < r.len()
            invariant
                ranges_ordered(r@),
                k <= r.len(),
                cur <= 0x1_0000_0000u64,
                match best {
                    None => forall|j: int| 0 <= j < k ==> (#[trigger] r@[j]).1 < cur,
                    Some(b) => cur <= b && (exists|j: int|
                        0 <= j < k && (#[trigger] r@[j]).1 >= cur && b == (if r@[j].0 >= cur {
                            r@[j].0 as u64
                        } else {
                            cur
                        })) && forall|j: int|
                        0 <= j < k && (#[trigger] r@[j]).1 >= cur ==> b <= r@[j].0 || b == cur,
                },
            decreases r.len() - k,
        {
            let (lo, hi) = r[k];
            if hi as u64 >= cur {
                let c: u64 = if lo as u64 >= cur {
                    lo as u64
                } else {
                    cur
                };
                match best {
                    None => {
                        best = Some(c);
                    },
                    Some(b) => {
                        if c < b {
                            best = Some(c);
                        }
                    },
                }
            }
            k = k + 1;
        }
        match best {
            None => {
                assert forall|p: u32| out@.contains(p) <==> in_ranges(r@, p) by {
                    if in_ranges(r@, p) {
                        let j = choose|j: int| 0 <= j < r@.len() && (#[trigger] r@[j]).0 <= p <= r@[j].1;
                        assert(r@[j].1 < cur);
                    }
                    if out@.contains(p) {
                        let i = choose|i: int| 0 <= i < out@.len() && out@[i] == p;
                        assert(out@[i] < cur);
                    }
                }
                break;
            },
            Some(m) => {
                let ghost jm = choose|j: int|
                    0 <= j < r@.len() && (#[trigger] r@[j]).1 >= cur && m == (if r@[j].0 >= cur {
                        r@[j].0 as u64
                    } else {
                        cur
                    });
                assert(m <= r@[jm].1);
                let mu = m as u32;
                let ghost old_out = out@;
                out.push(mu);
                proof {
                    assert(in_ranges(r@, mu));
                    assert forall|p: u32| p < m + 1 implies (out@.contains(p) <==> in_ranges(
                        r@,
                        p,
                    )) by {
                        if p < cur {
                            if old_out.contains(p) {
                                let i = choose|i: int| 0 <= i < old_out.len() && old_out[i] == p;
                                assert(out@[i] == p);
                            }
                            if out@.contains(p) {
                                let i = choose|i: int| 0 <= i < out@.len() && out@[i] == p;
                                if i < old_out.len() {
                                    assert(old_out[i] == p);
                                }
                            }
                        } else if p < m {
                            if in_ranges(r@, p) {
                                let j = choose|j: int| 0 <= j < r@.len() && (#[trigger] r@[j]).0 <= p <= r@[j].1;
                                assert(r@[j].1 >= cur);
                            }
                            if out@.contains(p) {
                                let i = choose|i: int| 0 <= i < out@.len() && out@[i] == p;
                                if i < old_out.len() {
                                    assert(old_out[i] < cur);
                                }
                            }
                        } else {
                            assert(p == mu);
                            assert(out@[out@.len() - 1] == p);
                        }
                    }
                }
                if m == 0xffff_ffffu64 {
                    assert forall|p: u32| out@.contains(p) <==> in_ranges(r@, p) by {
                        assert(p < m + 1);
                    }
                    break;
                }
                cur = m + 1;
            },
        }
    }
    out
}

/// The ranges that the parts of a page specification stand for.
fn page_ranges(s: &str) -> (res: Result<Vec<(u32, u32)>, PageSpecError>)
    ensures
        match spec_page_ranges(s@) {
            Ok(r) => res matches Ok(v) && v@ == r,
            Err(f) => res matches Err(e) && e@ == f,
        },
{
    let parts = split_chars(&chars_of(s), ',');
    let ghost ps = seq_views(parts@);
    let mut ranges: Vec<(u32, u32)> = Vec::new();
    let mut i: usize = 0;
    while i < parts.len()
        invariant
            i <= parts.len(),
            ps == seq_views(parts@),
            ps == split_on(s@, ','),
            spec_page_parts(ps.take(i as int)) == Ok::<Seq<(u32, u32)>, PageFault>(ranges@),
        decreases parts.len() - i,
    {
        proof {
            assert(ps.take(i + 1).drop_last() =~= ps.take(i as int));
            assert(ps.take(i + 1).last() == parts@[i as int]@);
        }
        let r = page_part(&parts[i]);
        match r {
            Err(e) => {
                proof {
                    lemma_parts_error_persists(ps, i as int + 1);
                }
                return Err(e);
            },
            Ok(x) => {
                ranges.push(x);
            },
        }
        i = i + 1;
    }
    assert(ps.take(parts.len() as int) =~= ps);
    Ok(ranges)
}

proof fn lemma_parts_error_persists(ps: Seq<Seq<char>>, i: int)
    requires
        0 <= i <= ps.len(),
        spec_page_parts(ps.take(i)) is Err,
    ensures
        spec_page_parts(ps) == spec_page_parts(ps.take(i)),
    decreases ps.len() - i,
{
    if i < ps.len() {
        assert(ps.take(i + 1).drop_last() =~= ps.take(i));
        lemma_parts_error_persists(ps, i + 1);
    } else {
        assert(ps.take(i) =~= ps);
    }
}

fn contains_char(v: &Vec<char>, c: char) -> (r: bool)
    ensures
        r == v@.contains(c),
{
    let mut i: usize = 0;
    while i < v.len()
        invariant
            i <= v.len(),
            forall|k: int| 0 <= k < i ==> v@[k] != c,
        decreases v.len() - i,
    {
        if v[i] == c {
            return true;
        }
        i = i + 1;
    }
    false
}

fn parse_u32_chars(t: &Vec<char>) -> (r: Result<u32, NumberError>)
    ensures
        match parse_unsigned(t@, u32_max()) {
            Some(n) => r == Ok::<u32, NumberError>(n as u32),
            None => r == Err::<u32, NumberError>(number_fault(t@, u32_max())),
        },
{
    match read_unsigned_chars(t, 0xffff_ffffusize) {
        Ok(n) => Ok(n as u32),
        Err(k) => Err(k),
    }
}

/// The range that one part stands for.
fn page_part(p: &Vec<char>) -> (r: Result<(u32, u32), PageSpecError>)
    ensures
        match spec_page_part(p@) {
            Ok(x) => r == Ok::<(u32, u32), PageSpecError>(x),
            Err(f) => r matches Err(e) && e@ == f,
        },
{
    let t = trim_chars(p);
    if contains_char(&t, '-') {
        let halves = split_chars(&t, '-');
        if halves.len() != 2 {
            return Err(PageSpecError::BadRange(string_of(&t)));
        }
        assert(seq_views(halves@)[0] == halves@[0]@);
        assert(seq_views(halves@)[1] == halves@[1]@);
        let a = match parse_u32_chars(&trim_chars(&halves[0])) {
            Err(k) => return Err(PageSpecError::BadNumber(k)),
            Ok(a) => a,
        };
        let b = match parse_u32_chars(&trim_chars(&halves[1])) {
            Err(k) => return Err(PageSpecError::BadNumber(k)),
            Ok(b) => b,
        };
        if a > b {
            Err(PageSpecError::ReversedRange(string_of(&t)))
        } else {
            Ok((a, b))
        }
    } else {
        match parse_u32_chars(&t) {
            Err(k) => Err(PageSpecError::BadNumber(k)),
            Ok(n) => Ok((n, n)),
        }
    }
}

/// The pages of a specification such as `"1,3,5-10"`: comma-separated page
/// numbers and inclusive ranges `a-b`, white space around them ignored. The
/// result is in increasing order, each page once.
pub fn parse_pages(s: &str) -> (res: Result<Vec<u32>, PageSpecError>)
    ensures
        match spec_page_ranges(s@) {
            Ok(r) => res matches Ok(v) && is_sorted_union(v@, r),
            Err(f) => res matches Err(e) && e@ == f,
        },
{
    let ranges = page_ranges(s)?;
    proof {
        lemma_spec_ranges_ordered(split_on(s@, ','));
    }
    Ok(sorted_union(&ranges))
}

proof fn lemma_spec_ranges_ordered(ps: Seq<Seq<char>>)
    requires
        spec_page_parts(ps) is Ok,
    ensures
        ranges_ordered(spec_page_parts(ps)->Ok_0),
    decreases ps.len(),
{
    if ps.len() > 0 {
        lemma_spec_ranges_ordered(ps.drop_last());
    }
}


/// The parts of two lists of parts, one after the other, fail where the
/// first fails, else where the second fails, and otherwise give the ranges of
/// the first followed by those of the second.
proof fn lemma_parts_concat(p1: Seq<Seq<char>>, p2: Seq<Seq<char>>)
    ensures
        spec_page_parts(p1 + p2) == match spec_page_parts(p1) {
            Err(e) => Err(e),
            Ok(r1) => match spec_page_parts(p2) {
                Err(e) => Err(e),
                Ok(r2) => Ok::<Seq<(u32, u32)>, PageFault>(r1 + r2),
            },
        },
    decreases p2.len(),
{
    if p2.len() == 0 {
        assert(p1 + p2 =~= p1);
        if spec_page_parts(p1) is Ok {
            let r1 = spec_page_parts(p1)->Ok_0;
            assert(r1 + Seq::<(u32, u32)>::empty() =~= r1);
        }
    } else {
        lemma_parts_concat(p1, p2.drop_last());
        assert((p1 + p2).drop_last() =~= p1 + p2.drop_last());
        assert((p1 + p2).last() == p2.last());
        if spec_page_parts(p1) is Ok && spec_page_parts(p2.drop_last()) is Ok && spec_page_part(
            p2.last(),
        ) is Ok {
            let r1 = spec_page_parts(p1)->Ok_0;
            let r2 = spec_page_parts(p2.drop_last())->Ok_0;
            let x = spec_page_part(p2.last())->Ok_0;
            assert((r1 + r2).push(x) =~= r1 + r2.push(x));
        }
    }
}

/// A page of the ranges `r1` followed by `r2` is a page of either.
proof fn lemma_in_ranges_concat(r1: Seq<(u32, u32)>, r2: Seq<(u32, u32)>, p: u32)
    ensures
        in_ranges(r1 + r2, p) <==> in_ranges(r1, p) || in_ranges(r2, p),
{
    let r = r1 + r2;
    if in_ranges(r, p) {
        let k = choose|k: int| 0 <= k < r.len() && (#[trigger] r[k]).0 <= p <= r[k].1;
        if k < r1.len() {
            assert(r1[k] == r[k]);
        } else {
            assert(r2[k - r1.len()] == r[k]);
        }
    }
    if in_ranges(r1, p) {
        let k = choose|k: int| 0 <= k < r1.len() && (#[trigger] r1[k]).0 <= p <= r1[k].1;
        assert(r[k] == r1[k]);
    }
    if in_ranges(r2, p) {
        let k = choose|k: int| 0 <= k < r2.len() && (#[trigger] r2[k]).0 <= p <= r2[k].1;
        assert(r[k + r1.len()] == r2[k]);
    }
}

/// Two page specifications joined by a comma: where the first is refused, the
/// joined one is refused for the same reason; else where the second is
/// refused, for its reason; otherwise the joined one is accepted and its pages
/// (`w`) are those of the first (`va`) and of the second (`vb`) together, in
/// increasing order, each once.
pub proof fn lemma_joined_page_specs(
    a: Seq<char>,
    b: Seq<char>,
    va: Seq<u32>,
    vb: Seq<u32>,
    w: Seq<u32>,
)
    ensures
        spec_page_ranges(a) is Err ==> spec_page_ranges(a + seq![','] + b) == spec_page_ranges(a),
        spec_page_ranges(a) is Ok && spec_page_ranges(b) is Err ==> spec_page_ranges(
            a + seq![','] + b,
        ) == spec_page_ranges(b),
        spec_page_ranges(a) is Ok && spec_page_ranges(b) is Ok ==> spec_page_ranges(
            a + seq![','] + b,
        ) is Ok,
        spec_page_ranges(a) is Ok && spec_page_ranges(b) is Ok && is_sorted_union(
            va,
            spec_page_ranges(a)->Ok_0,
        ) && is_sorted_union(vb, spec_page_ranges(b)->Ok_0) && is_sorted_union(
            w,
            spec_page_ranges(a + seq![','] + b)->Ok_0,
        ) ==> strictly_increasing(w) && forall|p: u32|
            #[trigger] w.contains(p) <==> va.contains(p) || vb.contains(p),
{
    lemma_split_on_join(a, b, ',');
    lemma_parts_concat(split_on(a, ','), split_on(b, ','));
    if spec_page_ranges(a) is Ok && spec_page_ranges(b) is Ok {
        let ra = spec_page_ranges(a)->Ok_0;
        let rb = spec_page_ranges(b)->Ok_0;
        assert(spec_page_ranges(a + seq![','] + b) == Ok::<Seq<(u32, u32)>, PageFault>(ra + rb));
        assert forall|p: u32| in_ranges(ra + rb, p) <==> in_ranges(ra, p) || in_ranges(rb, p) by {
            lemma_in_ranges_concat(ra, rb, p);
        }
    }
}

/// The digit character of `d`, for `d < 10`.
pub open spec fn digit_char(d: nat) -> char {
    ('0' as nat + d) as char
}

/// The decimal text of `n`, without sign or leading zeros.
pub open spec fn decimal_text(n: nat) -> Seq<char>
    decreases n,
{
    if n < 10 {
        seq![digit_char(n)]
    } else {
        decimal_text(n / 10).push(digit_char(n % 10))
    }
}

/// A page list written out: the decimal pages separated by commas.
pub open spec fn page_list_text(v: Seq<u32>) -> Seq<char>
    decreases v.len(),
{
    if v.len() <= 1 {
        if v.len() == 0 {
            Seq::empty()
        } else {
            decimal_text(v[0] as nat)
        }
    } else {
        page_list_text(v.drop_last()) + seq![','] + decimal_text(v.last() as nat)
    }
}

/// The decimal text of `n` is a non-empty run of digits that spells `n`.
pub proof fn lemma_decimal_text(n: nat)
    ensures
        decimal_text(n).len() > 0,
        forall|k: int| 0 <= k < decimal_text(n).len() ==> is_digit(#[trigger] decimal_text(n)[k]),
        decimal_value(decimal_text(n)) == n,
    decreases n,
{
    assert(digit_value(digit_char(n % 10)) == n % 10);
    assert(is_digit(digit_char(n % 10)));
    if n >= 10 {
        lemma_decimal_text(n / 10);
        let t = decimal_text(n);
        assert(t.drop_last() =~= decimal_text(n / 10));
        assert(t.last() == digit_char(n % 10));
        assert(n == (n / 10) * 10 + n % 10);
        assert(decimal_value(t) == decimal_value(t.drop_last()) * 10 + digit_value(t.last()));
        assert forall|k: int| 0 <= k < t.len() implies is_digit(#[trigger] t[k]) by {
            if k < t.len() - 1 {
                assert(t[k] == decimal_text(n / 10)[k]);
            }
        }
    } else {
        assert(n % 10 == n);
        assert(decimal_text(n).drop_last() =~= Seq::<char>::empty());
        assert(decimal_text(n).last() == digit_char(n));
        assert(decimal_value(decimal_text(n)) == decimal_value(decimal_text(n).drop_last()) * 10
            + digit_value(decimal_text(n).last()));
    }
}

/// A text without the separator is one piece.
proof fn lemma_split_on_single(t: Seq<char>, sep: char)
    requires
        !t.contains(sep),
    ensures
        split_on(t, sep) == seq![t],
    decreases t.len(),
{
    if t.len() > 0 {
        assert(!t.drop_last().contains(sep)) by {
            if t.drop_last().contains(sep) {
                let k = choose|k: int| 0 <= k < t.drop_last().len() && t.drop_last()[k] == sep;
                assert(t[k] == sep);
            }
        }
        lemma_split_on_single(t.drop_last(), sep);
        assert(t[t.len() - 1] != sep);
        assert(t.drop_last().push(t.last()) =~= t);
    } else {
        assert(t =~= Seq::<char>::empty());
    }
}

/// A page written in decimal is read back as the one-page range of it.
proof fn lemma_decimal_page_part(n: u32)
    ensures
        spec_page_part(decimal_text(n as nat)) == Ok::<(u32, u32), PageFault>((n, n)),
        !decimal_text(n as nat).contains(','),
{
    let t = decimal_text(n as nat);
    lemma_decimal_text(n as nat);
    assert(!is_ws(t[0]));
    assert(!is_ws(t.last()));
    assert(trim_start(t) == t);
    assert(trim_end(t) == t);
    assert(!t.contains('-')) by {
        if t.contains('-') {
            let k = choose|k: int| 0 <= k < t.len() && t[k] == '-';
            assert(is_digit(t[k]));
        }
    }
    assert(!t.contains(',')) by {
        if t.contains(',') {
            let k = choose|k: int| 0 <= k < t.len() && t[k] == ',';
            assert(is_digit(t[k]));
        }
    }
    assert(unsigned_digits(t) == t);
}

/// The parts of a written-out page list are the one-page ranges of its pages.
proof fn lemma_page_list_parts(v: Seq<u32>)
    requires
        v.len() > 0,
    ensures
        spec_page_ranges(page_list_text(v)) == Ok::<Seq<(u32, u32)>, PageFault>(
            v.map_values(|n: u32| (n, n)),
        ),
    decreases v.len(),
{
    let last = v.last();
    lemma_decimal_page_part(last);
    lemma_split_on_single(decimal_text(last as nat), ',');
    let single = seq![decimal_text(last as nat)];
    assert(single.drop_last() =~= Seq::<Seq<char>>::empty());
    assert(spec_page_parts(single) == Ok::<Seq<(u32, u32)>, PageFault>(seq![(last, last)])) by {
        assert(single.last() == decimal_text(last as nat));
        assert(spec_page_parts(single.drop_last()) == Ok::<Seq<(u32, u32)>, PageFault>(
            Seq::empty(),
        ));
        assert(Seq::<(u32, u32)>::empty().push((last, last)) =~= seq![(last, last)]);
    }
    if v.len() == 1 {
        assert(v.map_values(|n: u32| (n, n)) =~= seq![(last, last)]);
    } else {
        lemma_page_list_parts(v.drop_last());
        lemma_split_on_join(page_list_text(v.drop_last()), decimal_text(last as nat), ',');
        lemma_parts_concat(split_on(page_list_text(v.drop_last()), ','), single);
        assert(v.drop_last().map_values(|n: u32| (n, n)) + seq![(last, last)] =~= v.map_values(
            |n: u32| (n, n),
        ));
    }
}

/// A non-empty page list, written out with commas and read back, gives its
/// pages in increasing order, each once; a list that was already increasing
/// comes back unchanged.
pub proof fn lemma_page_list_round_trip(v: Seq<u32>, w: Seq<u32>)
    requires
        v.len() > 0,
    ensures
        spec_page_ranges(page_list_text(v)) is Ok,
        is_sorted_union(w, spec_page_ranges(page_list_text(v))->Ok_0) ==> strictly_increasing(w)
            && forall|p: u32| #[trigger] w.contains(p) <==> v.contains(p),
        is_sorted_union(w, spec_page_ranges(page_list_text(v))->Ok_0) && strictly_increasing(v)
            ==> w == v,
{
    lemma_page_list_parts(v);
    let r = v.map_values(|n: u32| (n, n));
    assert forall|p: u32| in_ranges(r, p) <==> v.contains(p) by {
        if in_ranges(r, p) {
            let k = choose|k: int| 0 <= k < r.len() && (#[trigger] r[k]).0 <= p <= r[k].1;
            assert(v[k] == p);
        }
        if v.contains(p) {
            let k = choose|k: int| 0 <= k < v.len() && v[k] == p;
            assert(r[k] == (p, p));
        }
    }
    if is_sorted_union(w, r) && strictly_increasing(v) {
        lemma_increasing_same_members(w, v);
    }
}

/// Two increasing lists with the same members are equal.
proof fn lemma_increasing_same_members(a: Seq<u32>, b: Seq<u32>)
    requires
        strictly_increasing(a),
        strictly_increasing(b),
        forall|p: u32| a.contains(p) <==> b.contains(p),
    ensures
        a == b,
    decreases a.len() + b.len(),
{
    if a.len() == 0 || b.len() == 0 {
        if a.len() > 0 {
            assert(a.contains(a[0]));
        }
        if b.len() > 0 {
            assert(b.contains(b[0]));
        }
        assert(a =~= b);
    } else {
        let x = a.last();
        let y = b.last();
        assert(a.contains(x));
        assert(b.contains(y));
        let i = choose|i: int| 0 <= i < b.len() && b[i] == x;
        let j = choose|j: int| 0 <= j < a.len() && a[j] == y;
        assert(x == y) by {
            if i < b.len() - 1 {
                assert(b[i] < b[b.len() - 1]);
            }
            if j < a.len() - 1 {
                assert(a[j] < a[a.len() - 1]);
            }
        }
        let a2 = a.drop_last();
        let b2 = b.drop_last();
        assert forall|p: u32| a2.contains(p) <==> b2.contains(p) by {
            if a2.contains(p) {
                let k = choose|k: int| 0 <= k < a2.len() && a2[k] == p;
                assert(a[k] == p && a[k] < x);
                assert(b.contains(p));
                let m = choose|m: int| 0 <= m < b.len() && b[m] == p;
                assert(m != b.len() - 1);
                assert(b2[m] == p);
            }
            if b2.contains(p) {
                let k = choose|k: int| 0 <= k < b2.len() && b2[k] == p;
                assert(b[k] == p && b[k] < y);
                assert(a.contains(p));
                let m = choose|m: int| 0 <= m < a.len() && a[m] == p;
                assert(m != a.len() - 1);
                assert(a2[m] == p);
            }
        }
        lemma_increasing_same_members(a2, b2);
        assert(a =~= a2.push(x));
        assert(b =~= b2.push(y));
    }
}

/// Why a page selection was refused.
#[derive(Debug, Clone, PartialEq, Eq)]
pub enum SelectError {
    /// All pages and a page list were both asked for.
    Conflict,
    /// The page list is malformed.
    Spec(PageSpecError),
    /// Nothing was selected.
    NoPages,
    /// This page is not in `1..=page_count`.
    OutOfRange(u32),
}

/// Whether page `p` is asked for: all pages of a document of `page_count`
/// pages, the pages of the ranges `r` of a page list, or the single `page`.
pub open spec fn is_selected(
    page_count: u32,
    page: u32,
    r: Option<Seq<(u32, u32)>>,
    all_pages: bool,
    p: u32,
) -> bool {
    if all_pages {
        1 <= p <= page_count
    } else {
        match r {
            Some(rs) => in_ranges(rs, p),
            None => p == page,
        }
    }
}

/// The ranges of the page list, where one is used.
pub open spec fn selection_ranges(pages: Option<String>, all_pages: bool) -> Option<
    Seq<(u32, u32)>,
> {
    if pages is Some && !all_pages {
        Some(spec_page_ranges(pages->0@)->Ok_0)
    } else {
        None
    }
}

/// A selected page outside `1..=page_count`.
pub open spec fn is_bad_page(
    page_count: u32,
    page: u32,
    r: Option<Seq<(u32, u32)>>,
    all_pages: bool,
    p: u32,
) -> bool {
    is_selected(page_count, page, r, all_pages, p) && (p < 1 || p > page_count)
}

/// The pages to work on: every page (`all_pages`), the pages of the list
/// `pages`, or else the single `page`; each must lie in `1..=page_count`.
/// The result is in increasing order, each page once.
pub fn select_pages(page_count: u32, page: u32, pages: &Option<String>, all_pages: bool) -> (res:
    Result<Vec<u32>, SelectError>)
    ensures
        all_pages && pages is Some ==> res == Err::<Vec<u32>, SelectError>(SelectError::Conflict),
        !all_pages && pages is Some && spec_page_ranges(pages->0@) is Err ==> (res matches Err(
            SelectError::Spec(e),
        ) && e@ == spec_page_ranges(pages->0@)->Err_0),
        !(all_pages && pages is Some) && !(!all_pages && pages is Some && spec_page_ranges(
            pages->0@,
        ) is Err) ==> {
            let r = selection_ranges(*pages, all_pages);
            &&& (forall|p: u32| !#[trigger] is_selected(page_count, page, r, all_pages, p)) ==> res
                == Err::<Vec<u32>, SelectError>(SelectError::NoPages)
            &&& ((exists|p: u32| #[trigger] is_selected(page_count, page, r, all_pages, p)) && (
            exists|p: u32| #[trigger] is_bad_page(page_count, page, r, all_pages, p))) ==> (
            res matches Err(SelectError::OutOfRange(q)) && is_bad_page(
                page_count,
                page,
                r,
                all_pages,
                q,
            ) && forall|p: u32| #[trigger] is_bad_page(page_count, page, r, all_pages, p) ==> q
                <= p)
            &&& ((exists|p: u32| #[trigger] is_selected(page_count, page, r, all_pages, p)) && (
            forall|p: u32| !#[trigger] is_bad_page(page_count, page, r, all_pages, p))) ==> (
            res matches Ok(v) && strictly_increasing(v@) && forall|p: u32|
                v@.contains(p) <==> #[trigger] is_selected(page_count, page, r, all_pages, p))
        },
{
    if all_pages && pages.is_some() {
        return Err(SelectError::Conflict);
    }
    let ghost r: Option<Seq<(u32, u32)>> = selection_ranges(*pages, all_pages);
    let selected: Vec<u32> = if all_pages {
        let mut v: Vec<u32> = Vec::new();
        let mut k: u64 = 1;
        while k <= page_count as u64
            invariant
                1 <= k <= page_count as u64 + 1,
                strictly_increasing(v@),
                forall|p: u32| v@.contains(p) <==> 1 <= p < k,
            decreases page_count as u64 + 1 - k,
        {
            let ghost old_v = v@;
            v.push(k as u32);
            assert forall|p: u32| v@.contains(p) <==> 1 <= p < k + 1 by {
                if old_v.contains(p) {
                    let i = choose|i: int| 0 <= i < old_v.len() && old_v[i] == p;
                    assert(v@[i] == p);
                }
                if v@.contains(p) && p != k {
                    let i = choose|i: int| 0 <= i < v@.len() && v@[i] == p;
                    assert(old_v[i] == p);
                }
                if p == k {
                    assert(v@[v@.len() - 1] == p);
                }
            }
            assert forall|i: int, j: int| 0 <= i < j < v@.len() implies v@[i] < v@[j] by {
                if j == v@.len() - 1 {
                    assert(old_v.contains(v@[i]));
                }
            }
            k = k + 1;
        }
        assert(forall|p: u32|
            v@.contains(p) <==> #[trigger] is_selected(page_count, page, r, all_pages, p));
        v
    } else {
        match pages {
            Some(spec) => match parse_pages(spec.as_str()) {
                Ok(v) => {
                    assert(forall|p: u32|
                        v@.contains(p) <==> #[trigger] is_selected(
                            page_count,
                            page,
                            r,
                            all_pages,
                            p,
                        ));
                    v
                },
                Err(e) => return Err(SelectError::Spec(e)),
            },
            None => {
                let mut v: Vec<u32> = Vec::new();
                v.push(page);
                assert(v@[0] == page);
                assert forall|p: u32|
                    v@.contains(p) <==> #[trigger] is_selected(
                        page_count,
                        page,
                        r,
                        all_pages,
                        p,
                    ) by {
                    if v@.contains(p) {
                        let i = choose|i: int| 0 <= i < v@.len() && v@[i] == p;
                        assert(i == 0);
                    }
                }
                v
            },
        }
    };
    assert(strictly_increasing(selected@));
    if selected.len() == 0 {
        return Err(SelectError::NoPages);
    }
    assert(is_selected(page_count, page, r, all_pages, selected@[0]));
    let mut i: usize = 0;
    while i < selected.len()
        invariant
            i <= selected.len(),
            strictly_increasing(selected@),
            forall|k: int| 0 <= k < i ==> 1 <= #[trigger] selected@[k] <= page_count,
            !(all_pages && pages is Some),
            !(!all_pages && pages is Some && spec_page_ranges(pages->0@) is Err),
            r == selection_ranges(*pages, all_pages),
            forall|p: u32|
                selected@.contains(p) <==> #[trigger] is_selected(page_count, page, r, all_pages, p),
        decreases selected.len() - i,
    {
        let p = selected[i];
        if p < 1 || p > page_count {
            proof {
                assert forall|q: u32| is_bad_page(page_count, page, r, all_pages, q) implies p
                    <= q by {
                    assert(selected@.contains(q));
                    let j = choose|j: int| 0 <= j < selected@.len() && selected@[j] == q;
                    if j < i {
                        assert(1 <= selected@[j] <= page_count);
                    }
                }
                assert(selected@.contains(p));
                assert(is_bad_page(page_count, page, r, all_pages, p));
                assert(is_selected(page_count, page, r, all_pages, p));
            }
            return Err(SelectError::OutOfRange(p));
        }
        i = i + 1;
    }
    proof {
        assert forall|q: u32| !is_bad_page(page_count, page, r, all_pages, q) by {
            if is_selected(page_count, page, r, all_pages, q) {
                assert(selected@.contains(q));
                let j = choose|j: int| 0 <= j < selected@.len() && selected@[j] == q;
                assert(1 <= selected@[j] <= page_count);
            }
        }
    }
    Ok(selected)
}

} // verus!
