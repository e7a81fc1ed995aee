//! Page operations: rotation requests, the pages to delete and in what
//! order, and the checks on a new page order.
use vstd::prelude::*;
use vstd::multiset::Multiset;
use crate::chars::chars_of;
use crate::text::{decimal_value, is_digit, parse_unsigned, parse_unsigned_chars};

verus! {

/// The largest magnitude of an `i64` with the given sign.
pub open spec fn i64_limit(negative: bool) -> nat {
    if negative {
        0x8000_0000_0000_0000
    } else {
        0x7FFF_FFFF_FFFF_FFFF
    }
}

/// `s` without one leading sign.
pub open spec fn unsigned_part(s: Seq<char>) -> Seq<char> {
    if s.len() > 0 && (s[0] == '-' || s[0] == '+') {
        s.skip(1)
    } else {
        s
    }
}

/// std's reading of an `i64`: an optional `+` or `-`, then one or more
/// ASCII digits, the value within the type's range.
pub open spec fn parse_i64(s: Seq<char>) -> Option<int> {
    let negative = s.len() > 0 && s[0] == '-';
    let d = unsigned_part(s);
    if d.len() == 0 || !(forall|k: int| 0 <= k < d.len() ==> is_digit(#[trigger] d[k])) {
        None
    } else if decimal_value(d) > i64_limit(negative) {
        None
    } else if negative {
        Some(-decimal_value(d))
    } else {
        Some(decimal_value(d) as int)
    }
}

proof fn lemma_decimal_prefix_le(d: Seq<char>, k: int)
    requires
        0 <= k <= d.len(),
    ensures
        decimal_value(d.take(k)) <= decimal_value(d),
    decreases d.len() - k,
{
    if k < d.len() {
        lemma_decimal_prefix_le(d, k + 1);
        assert(d.take(k + 1).drop_last() =~= d.take(k));
    } else {
        assert(d.take(k) =~= d);
    }
}

/// std's `parse::<i64>`.
pub fn parse_i64_chars(s: &Vec<char>) -> (r: Option<i64>)
    ensures
        match parse_i64(s@) {
            Some(v) => r == Some(v as i64),
            None => r is None,
        },
{
    let negative = s.len() > 0 && s[0] == '-';
    let start: usize = if s.len() > 0 && (s[0] == '-' || s[0] == '+') {
        1
    } else {
        0
    };
    let ghost d = s@.skip(start as int);
    assert(start == 0 ==> d =~= s@);
    if start == s.len() {
        assert(d.len() == 0);
        return None;
    }
    let limit: u64 = if negative {
        0x8000_0000_0000_0000
    } else {
        0x7FFF_FFFF_FFFF_FFFF
    };
    let mut acc: u64 = 0;
    let mut i = start;
    while i < s.len()
        invariant
            start <= i <= s.len(),
            start < s.len(),
            d == s@.skip(start as int),
            negative == (s@.len() > 0 && s@[0] == '-'),
            d == unsigned_part(s@),
            limit == i64_limit(negative),
            acc <= limit,
            acc == decimal_value(d.take(i - start)),
            forall|k: int| 0 <= k < i - start ==> is_digit(#[trigger] d[k]),
        decreases s.len() - i,
    {
        let c = s[i];
        if !('0' <= c && c <= '9') {
            assert(d[i - start] == c);
            assert(!is_digit(d[i - start]));
            assert(d.len() == s@.len() - start);
            assert(0 <= i - start < d.len());
            assert(!(forall|k: int| 0 <= k < d.len() ==> is_digit(#[trigger] d[k])));
            assert(parse_i64(s@) is None);
            return None;
        }
        let v = (c as u32 - '0' as u32) as u64;
        let ghost k = i - start;
        assert(d.take(k + 1).drop_last() =~= d.take(k));
        assert(d.take(k + 1).last() == c);
        if acc > (limit - v) / 10 {
            proof {
                assert forall|m: int| 0 <= m < d.len() && m < k + 1 implies is_digit(#[trigger] d[m]) by {
                    if m == k {
                        assert(d[m] == c);
                    }
                }
                lemma_decimal_prefix_le(d, k + 1);
                assert(decimal_value(d.take(k + 1)) == acc * 10 + v);
                assert(acc * 10 + v > limit) by (nonlinear_arith)
                    requires
                        acc > (limit - v) / 10,
                ;
            }
            return None;
        }
        assert(acc * 10 + v <= limit) by (nonlinear_arith)
            requires
                acc <= (limit - v) / 10,
                v <= 9,
                v <= limit,
        ;
        acc = acc * 10 + v;
        i = i + 1;
    }
    assert(d.take(s.len() - start) =~= d);
    if negative {
        if acc == 0x8000_0000_0000_0000 {
            Some(i64::MIN)
        } else {
            Some(-(acc as i64))
        }
    } else {
        Some(acc as i64)
    }
}

/// Why a rotation request such as `1:90` was refused.
#[derive(Debug, Clone, Copy, PartialEq, Eq)]
pub enum RotateSpecError {
    /// There is no `:` between page and angle.
    Format,
    /// The page is not a number (`u32`).
    BadPage,
    /// The angle is not a number (`i64`).
    BadAngle,
    /// The angle is a number other than 0, 90, 180 or 270.
    AngleNotAllowed(i64),
}

/// The index of the first `:`.
pub open spec fn first_colon(s: Seq<char>) -> Option<int> {
    if exists|i: int| 0 <= i < s.len() && s[i] == ':' {
        Some(choose|i: int| 0 <= i < s.len() && s[i] == ':' && forall|j: int| 0 <= j < i ==> s[j] != ':')
    } else {
        None
    }
}

/// A rotation request `page:angle`, cut at its first `:`: the page a
/// `u32`, the angle an `i64` that is 0, 90, 180 or 270.
pub open spec fn spec_rotate_spec(s: Seq<char>) -> Result<(u32, i64), RotateSpecError> {
    match first_colon(s) {
        None => Err(RotateSpecError::Format),
        Some(c) => match parse_unsigned(s.take(c), u32::MAX as nat) {
            None => Err(RotateSpecError::BadPage),
            Some(p) => match parse_i64(s.skip(c + 1)) {
                None => Err(RotateSpecError::BadAngle),
                Some(a) => if a == 0 || a == 90 || a == 180 || a == 270 {
                    Ok((p as u32, a as i64))
                } else {
                    Err(RotateSpecError::AngleNotAllowed(a as i64))
                },
            },
        },
    }
}

fn slice_chars(v: &Vec<char>, a: usize, b: usize) -> (r: Vec<char>)
    requires
        a <= b <= v.len(),
    ensures
        r@ == v@.subrange(a as int, b as int),
{
    let mut r: Vec<char> = Vec::new();
    let mut k = a;
    while k < b
        invariant
            a <= k <= b <= v.len(),
            r@ == v@.subrange(a as int, k as int),
        decreases b - k,
    {
        r.push(v[k]);
        k = k + 1;
        assert(r@ =~= v@.subrange(a as int, k as int));
    }
    r
}

/// A rotation request `page:angle`, such as `1:90`: the page and the angle
/// (0, 90, 180 or 270), or why it was refused.
pub fn parse_rotate_spec(spec: &str) -> (r: Result<(u32, i64), RotateSpecError>)
    ensures
        r == spec_rotate_spec(spec@),
{
    let v = chars_of(spec);
    let mut c: usize = 0;
    while c < v.len() && v[c] != ':'
        invariant
            c <= v.len(),
            forall|j: int| 0 <= j < c ==> v@[j] != ':',
        decreases v.len() - c,
    {
        c = c + 1;
    }
    if c == v.len() {
        assert(first_colon(v@) is None);
        return Err(RotateSpecError::Format);
    }
    proof {
        let f = first_colon(v@);
        let w = choose|i: int| 0 <= i < v@.len() && v@[i] == ':' && forall|j: int| 0 <= j < i ==> v@[j] != ':';
        assert(w == c);
    }
    let head = slice_chars(&v, 0, c);
    let tail = slice_chars(&v, c + 1, v.len());
    assert(head@ =~= v@.take(c as int));
    assert(tail@ =~= v@.skip(c + 1));
    let page = match parse_unsigned_chars(&head, 0xFFFF_FFFF) {
        Some(p) => p as u32,
        None => {
            return Err(RotateSpecError::BadPage);
        },
    };
    let angle = match parse_i64_chars(&tail) {
        Some(a) => a,
        None => {
            return Err(RotateSpecError::BadAngle);
        },
    };
    if angle == 0 || angle == 90 || angle == 180 || angle == 270 {
        Ok((page, angle))
    } else {
        Err(RotateSpecError::AngleNotAllowed(angle))
    }
}

/// The pages to delete: with a keep list, every page of the document not
/// in it, in the document's order; else the delete list as given.
pub open spec fn spec_pages_to_delete(all: Seq<u32>, delete: Seq<u32>, keep: Seq<u32>) -> Seq<u32> {
    if keep.len() > 0 {
        all.filter(|p: u32| !keep.contains(p))
    } else {
        delete
    }
}

/// The pages to delete: with a keep list, the pages of `all` (in order)
/// that it does not hold; without one, `delete`.
pub fn pages_to_delete(all: &Vec<u32>, delete: &Vec<u32>, keep: &Vec<u32>) -> (r: Vec<u32>)
    ensures
        r@ == spec_pages_to_delete(all@, delete@, keep@),
{
    if keep.len() == 0 {
        return delete.clone();
    }
    let mut out: Vec<u32> = Vec::new();
    let mut i: usize = 0;
    while i < all.len()
        invariant
            keep@.len() > 0,
            i <= all.len(),
            out@ == all@.take(i as int).filter(|p: u32| !keep@.contains(p)),
        decreases all.len() - i,
    {
        let p = all[i];
        let mut kept = false;
        let mut k: usize = 0;
        while k < keep.len()
            invariant
                k <= keep.len(),
                kept == exists|j: int| 0 <= j < k && keep@[j] == p,
            decreases keep.len() - k,
        {
            if keep[k] == p {
                kept = true;
            }
            k = k + 1;
        }
        assert(kept == keep@.contains(p));
        assert(all@.take(i + 1).drop_last() =~= all@.take(i as int));
        reveal(Seq::filter);
        if !kept {
            out.push(p);
        }
        i = i + 1;
    }
    assert(all@.take(all.len() as int) =~= all@);
    out
}

/// `v` is in descending order.
pub open spec fn descending(v: Seq<u32>) -> bool {
    forall|i: int, j: int| 0 <= i < j < v.len() ==> v[i] >= v[j]
}

/// Putting `x` after the elements no smaller than it keeps a descending
/// sequence descending and adds `x` to its multiset.
proof fn lemma_insert_keeps_order(before: Seq<u32>, k: int, x: u32)
    requires
        descending(before),
        0 <= k <= before.len(),
        forall|m: int| 0 <= m < k ==> before[m] >= x,
        k < before.len() ==> before[k] < x,
    ensures
        descending(before.take(k).push(x) + before.skip(k)),
        (before.take(k).push(x) + before.skip(k)).to_multiset() == before.to_multiset().insert(x),
{
    let a = before.take(k);
    let b = before.skip(k);
    let out = a.push(x) + b;
    assert(before =~= a + b);
    vstd::seq_lib::lemma_multiset_commutative(a.push(x), b);
    vstd::seq_lib::lemma_multiset_commutative(a, b);
    a.to_multiset_ensures();
    assert(out.to_multiset() =~= before.to_multiset().insert(x));
    assert forall|p: int, q: int| 0 <= p < q < out.len() implies out[p] >= out[q] by {
        if q < k {
            assert(out[p] == before[p] && out[q] == before[q]);
        } else if q == k {
            assert(out[p] == before[p]);
        } else if p < k {
            assert(out[p] == before[p] && out[q] == before[q - 1]);
        } else if p == k {
            assert(out[q] == before[q - 1]);
            assert(before[k] >= before[q - 1] || k == q - 1);
        } else {
            assert(out[p] == before[p - 1] && out[q] == before[q - 1]);
        }
    }
}

/// The pages in the order they are removed: highest first, so that a
/// removal does not renumber the pages still to go.
pub fn deletion_order(pages: &Vec<u32>) -> (r: Vec<u32>)
    ensures
        descending(r@),
        r@.to_multiset() == pages@.to_multiset(),
{
    let mut out: Vec<u32> = Vec::new();
    let mut i: usize = 0;
    assert(out@ =~= pages@.take(0));
    while i < pages.len()
        invariant
            i <= pages.len(),
            descending(out@),
            out@.to_multiset() == pages@.take(i as int).to_multiset(),
        decreases pages.len() - i,
    {
        let x = pages[i];
        let mut k: usize = 0;
        while k < out.len() && out[k] >= x
            invariant
                k <= out.len(),
                forall|m: int| 0 <= m < k ==> out@[m] >= x,
            decreases out.len() - k,
        {
            k = k + 1;
        }
        let ghost before = out@;
        out.insert(k, x);
        proof {
            lemma_insert_keeps_order(before, k as int, x);
            assert(out@ =~= before.take(k as int).push(x) + before.skip(k as int));
            assert(pages@.take(i + 1) =~= pages@.take(i as int).push(x));
            pages@.take(i as int).to_multiset_ensures();
        }
        i = i + 1;
    }
    assert(pages@.take(pages.len() as int) =~= pages@);
    out
}

/// Why a new page order was refused.
#[derive(Debug, Clone, Copy, PartialEq, Eq)]
pub enum ReorderError {
    /// It names `given` pages where the document has `total`.
    WrongCount { total: u32, given: usize },
    /// This page number lies outside `1..=total`.
    OutOfRange(u32),
    /// This page number occurs twice.
    Duplicate(u32),
}

/// The first place in `order` (from `i` on) whose page is out of range or
/// repeats an earlier one.
pub open spec fn first_bad(order: Seq<u32>, total: u32, i: int) -> Option<(int, ReorderError)>
    decreases order.len() - i,
{
    if i < 0 || i >= order.len() {
        None
    } else if order[i] < 1 || order[i] > total {
        Some((i, ReorderError::OutOfRange(order[i])))
    } else if order.take(i).contains(order[i]) {
        Some((i, ReorderError::Duplicate(order[i])))
    } else {
        first_bad(order, total, i + 1)
    }
}

/// A new page order must name each of the `total` pages once: the count
/// comes first, then the first page out of range or repeated.
pub open spec fn spec_check_reorder(order: Seq<u32>, total: u32) -> Result<(), ReorderError> {
    if order.len() != total {
        Err(ReorderError::WrongCount { total, given: order.len() as usize })
    } else {
        match first_bad(order, total, 0) {
            Some((_, e)) => Err(e),
            None => Ok(()),
        }
    }
}

/// Checks a new page order against a document of `total` pages: it must
/// have `total` entries, each in `1..=total`, none twice.
pub fn check_reorder(order: &Vec<u32>, total: u32) -> (r: Result<(), ReorderError>)
    ensures
        r == spec_check_reorder(order@, total),
{
    if order.len() != total as usize {
        return Err(ReorderError::WrongCount { total, given: order.len() });
    }
    let mut i: usize = 0;
    while i < order.len()
        invariant
            i <= order.len(),
            order.len() == total,
            first_bad(order@, total, 0) == first_bad(order@, total, i as int),
        decreases order.len() - i,
    {
        let p = order[i];
        if p < 1 || p > total {
            return Err(ReorderError::OutOfRange(p));
        }
        let mut seen = false;
        let mut k: usize = 0;
        while k < i
            invariant
                k <= i < order.len(),
                seen == exists|j: int| 0 <= j < k && order@[j] == p,
            decreases i - k,
        {
            if order[k] == p {
                seen = true;
            }
            k = k + 1;
        }
        proof {
            if seen {
                let j = choose|j: int| 0 <= j < i && order@[j] == p;
                assert(order@.take(i as int)[j] == p);
            }
            if order@.take(i as int).contains(p) {
                let j = choose|j: int| 0 <= j < i && order@.take(i as int)[j] == p;
                assert(order@[j] == p);
            }
        }
        if seen {
            return Err(ReorderError::Duplicate(p));
        }
        i = i + 1;
    }
    Ok(())
}

/// How a merge of several files takes its pages.
#[derive(Debug, Clone, PartialEq, Eq)]
pub enum MergePlan {
    /// A single file and no page list: the file is copied as it is.
    Copy,
    /// For each input file in turn, the page list it uses by its index
    /// among those given, or `None` for all its pages.
    Each(Vec<Option<usize>>),
}

/// Why the arguments of a merge were refused.
#[derive(Debug, Clone, Copy, PartialEq, Eq)]
pub enum MergeArgError {
    /// No input file was given.
    NoInputs,
    /// The number of page lists is neither 0, 1 nor the number of files.
    SpecCount,
}

/// The page list that input `i` of `n_inputs` uses among `n_specs` given:
/// none for all pages, the one list for every file, or the `i`-th.
pub open spec fn spec_list_for(n_specs: nat, i: int) -> Option<usize> {
    if n_specs == 0 {
        None
    } else if n_specs == 1 {
        Some(0usize)
    } else {
        Some(i as usize)
    }
}

/// The plan of a merge of `n_inputs` files given `n_specs` page lists: no
/// list takes every page of each file, one list applies to every file, and
/// otherwise there must be one list per file, in order. A single file with
/// no list is copied.
pub fn merge_plan(n_inputs: usize, n_specs: usize) -> (r: Result<MergePlan, MergeArgError>)
    ensures
        n_inputs == 0 ==> r == Err::<MergePlan, MergeArgError>(MergeArgError::NoInputs),
        n_inputs == 1 && n_specs == 0 ==> r == Ok::<MergePlan, MergeArgError>(MergePlan::Copy),
        n_inputs > 0 && !(n_inputs == 1 && n_specs == 0) && n_specs != 0 && n_specs != 1 && n_specs
            != n_inputs ==> r == Err::<MergePlan, MergeArgError>(MergeArgError::SpecCount),
        n_inputs > 0 && !(n_inputs == 1 && n_specs == 0) && (n_specs == 0 || n_specs == 1 || n_specs
            == n_inputs) ==> (r matches Ok(MergePlan::Each(v)) && v@.len() == n_inputs && forall|
            i: int,
        | 0 <= i < n_inputs ==> #[trigger] v@[i] == spec_list_for(n_specs as nat, i)),
{
    if n_inputs == 0 {
        return Err(MergeArgError::NoInputs);
    }
    if n_inputs == 1 && n_specs == 0 {
        return Ok(MergePlan::Copy);
    }
    if n_specs != 0 && n_specs != 1 && n_specs != n_inputs {
        return Err(MergeArgError::SpecCount);
    }
    let mut v: Vec<Option<usize>> = Vec::new();
    let mut i: usize = 0;
    while i < n_inputs
        invariant
            i <= n_inputs,
            n_specs == 0 || n_specs == 1 || n_specs == n_inputs,
            v@.len() == i,
            forall|k: int| 0 <= k < i ==> #[trigger] v@[k] == spec_list_for(n_specs as nat, k),
        decreases n_inputs - i,
    {
        let choice: Option<usize> = if n_specs == 0 {
            None
        } else if n_specs == 1 {
            Some(0)
        } else {
            Some(i)
        };
        v.push(choice);
        i = i + 1;
    }
    Ok(MergePlan::Each(v))
}

/// The pages of a merge in the order they appear: the input files in
/// order, and within each file its selected pages in the order given.
pub open spec fn merged_order(lists: Seq<Seq<u32>>) -> Seq<(usize, u32)>
    decreases lists.len(),
{
    if lists.len() == 0 {
        Seq::empty()
    } else {
        merged_order(lists.drop_last()) + lists.last().map_values(
            |p: u32| ((lists.len() - 1) as usize, p),
        )
    }
}

/// Views of the selected page lists of the input files.
pub open spec fn list_views(v: Seq<Vec<u32>>) -> Seq<Seq<u32>> {
    v.map_values(|x: Vec<u32>| x@)
}

/// The order of the merged document's pages, each as the index of its input
/// file and its page number there: the files in the order given, each
/// contributing its selected pages (which select_pages gives in increasing
/// order) one after another.
pub fn merged_page_order(selected: &Vec<Vec<u32>>) -> (r: Vec<(usize, u32)>)
    ensures
        r@ == merged_order(list_views(selected@)),
{
    let mut out: Vec<(usize, u32)> = Vec::new();
    let mut i: usize = 0;
    while i < selected.len()
        invariant
            i <= selected@.len(),
            out@ == merged_order(list_views(selected@).take(i as int)),
        decreases selected@.len() - i,
    {
        let ghost before = out@;
        let list = &selected[i];
        let mut j: usize = 0;
        while j < list.len()
            invariant
                i < selected@.len(),
                list@ == selected@[i as int]@,
                j <= list@.len(),
                out@ == before + list@.take(j as int).map_values(|p: u32| (i, p)),
            decreases list@.len() - j,
        {
            out.push((i, list[j]));
            proof {
                assert(list@.take(j + 1).map_values(|p: u32| (i, p)) =~= list@.take(
                    j as int,
                ).map_values(|p: u32| (i, p)).push((i, list@[j as int])));
            }
            j = j + 1;
        }
        proof {
            let lv = list_views(selected@);
            assert(lv.take(i + 1).drop_last() =~= lv.take(i as int));
            assert(lv.take(i + 1).last() == list@);
            assert(list@.take(j as int) =~= list@);
            assert(list@.map_values(|p: u32| (i, p)) =~= lv.take(i + 1).last().map_values(
                |p: u32| ((lv.take(i + 1).len() - 1) as usize, p),
            ));
        }
        i = i + 1;
    }
    assert(list_views(selected@).take(selected@.len() as int) =~= list_views(selected@));
    out
}

} // verus!
