//! Index lists such as `"1,3-4"` or `"-1-3"` over a list of resources.
use vstd::prelude::*;
use crate::chars::chars_of;
use crate::search::nonempty_trimmed;
use crate::text::{parse_unsigned, parse_unsigned_chars, seq_views, split_chars, split_on, trim_chars};

verus! {

/// The index of the first `-` in `s`.
pub open spec fn first_dash(s: Seq<char>) -> Option<int>
    decreases s.len(),
{
    if s.len() == 0 {
        None
    } else {
        match first_dash(s.drop_last()) {
            Some(d) => Some(d),
            None => if s.last() == '-' {
                Some(s.len() - 1)
            } else {
                None
            },
        }
    }
}

pub open spec fn usize_max_nat() -> nat {
    usize::MAX as nat
}

/// The numbers `a..=b` that one token names: `n`, `a-b`, or the same after
/// a leading `-` (then counted from the end). `None` for a token that does
/// not parse.
pub open spec fn token_bounds(t: Seq<char>) -> Option<(bool, nat, nat)> {
    let from_end = t.len() > 0 && t[0] == '-';
    let body = if from_end {
        t.skip(1)
    } else {
        t
    };
    match first_dash(body) {
        Some(d) => match parse_unsigned(body.take(d), usize_max_nat()) {
            Some(a) => match parse_unsigned(body.skip(d + 1), usize_max_nat()) {
                Some(b) => Some((from_end, a, b)),
                None => None,
            },
            None => None,
        },
        None => match parse_unsigned(body, usize_max_nat()) {
            Some(n) => Some((from_end, n, n)),
            None => None,
        },
    }
}

/// Token `t` selects the 0-based index `p` of a list of `total` items:
/// position `i` (1-based, `a <= i <= b`, within the list) gives index `i - 1`,
/// or `total - i` when counted from the end.
pub open spec fn token_selects(t: Seq<char>, total: nat, p: int) -> bool {
    match token_bounds(t) {
        None => false,
        Some((from_end, a, b)) => exists|i: int|
            a <= i <= b && 1 <= i <= total && #[trigger] index_of(from_end, total, i) == p,
    }
}

pub open spec fn index_of(from_end: bool, total: nat, i: int) -> int {
    if from_end {
        total - i
    } else {
        i - 1
    }
}

/// The specification `s` selects index `p`.
pub open spec fn spec_selects(s: Seq<char>, total: nat, p: int) -> bool {
    let toks = nonempty_trimmed(split_on(s, ','));
    exists|k: int| 0 <= k < toks.len() && #[trigger] token_selects(toks[k], total, p)
}

pub open spec fn strictly_increasing_usize(v: Seq<usize>) -> bool {
    forall|i: int, j: int| 0 <= i < j < v.len() ==> v[i] < v[j]
}

pub open spec fn in_index_ranges(r: Seq<(usize, usize)>, p: int) -> bool {
    exists|k: int| 0 <= k < r.len() && (#[trigger] r[k]).0 <= p <= r[k].1
}

fn first_dash_exec(v: &Vec<char>) -> (r: Option<usize>)
    ensures
        match first_dash(v@) {
            Some(d) => r == Some(d as usize) && 0 <= d < v.len(),
            None => r is None,
        },
{
    let mut i: usize = 0;
    while i < v.len()
        invariant
            i <= v.len(),
            first_dash(v@.take(i as int)) is None,
        decreases v.len() - i,
    {
        assert(v@.take(i + 1).drop_last() =~= v@.take(i as int));
        if v[i] == '-' {
            proof {
                lemma_first_dash_prefix(v@, i + 1);
            }
            return Some(i);
        }
        i = i + 1;
    }
    assert(v@.take(v.len() as int) =~= v@);
    None
}

proof fn lemma_first_dash_prefix(s: Seq<char>, j: int)
    requires
        0 <= j <= s.len(),
        first_dash(s.take(j)) is Some,
    ensures
        first_dash(s) == first_dash(s.take(j)),
        first_dash(s.take(j))->0 < j,
    decreases s.len() - j,
{
    lemma_first_dash_bound(s.take(j));
    if j < s.len() {
        assert(s.take(j + 1).drop_last() =~= s.take(j));
        lemma_first_dash_prefix(s, j + 1);
    } else {
        assert(s.take(j) =~= s);
    }
}

proof fn lemma_first_dash_bound(s: Seq<char>)
    ensures
        first_dash(s) matches Some(d) ==> 0 <= d < s.len(),
    decreases s.len(),
{
    if s.len() > 0 {
        lemma_first_dash_bound(s.drop_last());
    }
}

fn slice_chars(v: &Vec<char>, a: usize, b: usize) -> (r: Vec<char>)
    requires
        a <= b <= v.len(),
    ensures
        r@ == v@.subrange(a as int, b as int),
{
    let mut r: Vec<char> = Vec::new();
    let mut k = a;
    while k < b
        invariant
            a <= k <= b <= v.len(),
            r@ == v@.subrange(a as int, k as int),
        decreases b - k,
    {
        r.push(v[k]);
        k = k + 1;
        assert(r@ =~= v@.subrange(a as int, k as int));
    }
    r
}

fn token_bounds_exec(t: &Vec<char>) -> (r: Option<(bool, usize, usize)>)
    ensures
        match token_bounds(t@) {
            Some(x) => r == Some((x.0, x.1 as usize, x.2 as usize)) && x.1 <= usize::MAX && x.2
                <= usize::MAX,
            None => r is None,
        },
{
    let from_end = t.len() > 0 && t[0] == '-';
    let body = if from_end {
        slice_chars(t, 1, t.len())
    } else {
        slice_chars(t, 0, t.len())
    };
    assert(from_end ==> body@ =~= t@.skip(1));
    assert(!from_end ==> body@ =~= t@);
    match first_dash_exec(&body) {
        Some(d) => {
            let left = slice_chars(&body, 0, d);
            let right = slice_chars(&body, d + 1, body.len());
            assert(left@ =~= body@.take(d as int));
            assert(right@ =~= body@.skip(d + 1));
            match parse_unsigned_chars(&left, usize::MAX) {
                Some(a) => match parse_unsigned_chars(&right, usize::MAX) {
                    Some(b) => Some((from_end, a, b)),
                    None => None,
                },
                None => None,
            }
        },
        None => match parse_unsigned_chars(&body, usize::MAX) {
            Some(n) => Some((from_end, n, n)),
            None => None,
        },
    }
}

/// The indices, within a list of `total` items, that one token selects: an
/// inclusive range `(lo, hi)`, empty where nothing lies in the list.
fn token_range(t: &Vec<char>, total: usize) -> (r: Option<(usize, usize)>)
    ensures
        r matches Some(x) ==> x.0 <= x.1 < total,
        forall|p: int| #[trigger] token_selects(t@, total as nat, p) <==> (r matches Some(x) && x.0
            <= p <= x.1),
{
    match token_bounds_exec(t) {
        None => None,
        Some((from_end, a, b)) => {
            let lo = if a < 1 {
                1
            } else {
                a
            };
            let hi = if b > total {
                total
            } else {
                b
            };
            if lo > hi {
                assert forall|p: int| !#[trigger] token_selects(t@, total as nat, p) by {
                    if token_selects(t@, total as nat, p) {
                        let i = choose|i: int|
                            a <= i <= b && 1 <= i <= total && #[trigger] index_of(from_end, total as nat, i) == p;
                    }
                }
                return None;
            }
            let r = if from_end {
                (total - hi, total - lo)
            } else {
                (lo - 1, hi - 1)
            };
            assert forall|p: int| #[trigger] token_selects(t@, total as nat, p) <==> r.0 <= p <= r.1 by {
                if r.0 <= p <= r.1 {
                    let i = if from_end {
                        total - p
                    } else {
                        p + 1
                    };
                    assert(index_of(from_end, total as nat, i) == p);
                }
            }
            Some(r)
        },
    }
}

/// The indices in any of the ranges, in increasing order, each once.
fn sorted_index_union(r: &Vec<(usize, usize)>, total: usize) -> (v: Vec<usize>)
    requires
        forall|k: int| 0 <= k < r.len() ==> (#[trigger] r@[k]).0 <= r@[k].1 < total,
    ensures
        strictly_increasing_usize(v@),
        forall|p: int| (exists|i: int| 0 <= i < v.len() && v@[i] == p) <==> in_index_ranges(r@, p),
{
    let mut out: Vec<usize> = Vec::new();
    let mut cur: usize = 0;
    loop
        invariant
            forall|k: int| 0 <= k < r.len() ==> (#[trigger] r@[k]).0 <= r@[k].1 < total,
            cur <= total,
            strictly_increasing_usize(out@),
            forall|i: int| 0 <= i < out.len() ==> out@[i] < cur,
            forall|p: int|
                p < cur ==> ((exists|i: int| 0 <= i < out.len() && out@[i] == p) <==> in_index_ranges(
                    r@,
                    p,
                )),
        ensures
            strictly_increasing_usize(out@),
            forall|p: int|
                (exists|i: int| 0 <= i < out.len() && out@[i] == p) <==> in_index_ranges(r@, p),
        decreases total - cur,
    {
        let mut best: Option<usize> = None;
        let mut k: usize = 0;
        while k < r.len()
            invariant
                forall|k: int| 0 <= k < r.len() ==> (#[trigger] r@[k]).0 <= r@[k].1 < total,
                k <= r.len(),
                cur <= total,
                match best {
                    None => forall|j: int| 0 <= j < k ==> (#[trigger] r@[j]).1 < cur,
                    Some(b) => cur <= b && (exists|j: int|
                        0 <= j < k && (#[trigger] r@[j]).1 >= cur && b == (if r@[j].0 >= cur {
                            r@[j].0
                        } else {
                            cur
                        })) && forall|j: int|
                        0 <= j < k && (#[trigger] r@[j]).1 >= cur ==> b <= r@[j].0 || b == cur,
                },
            decreases r.len() - k,
        {
            let (lo, hi) = r[k];
            if hi >= cur {
                let c: usize = if lo >= cur {
                    lo
                } else {
                    cur
                };
                match best {
                    None => {
                        best = Some(c);
                    },
                    Some(b) => {
                        if c < b {
                            best = Some(c);
                        }
                    },
                }
            }
            k = k + 1;
        }
        match best {
            None => {
                assert forall|p: int|
                    (exists|i: int| 0 <= i < out.len() && out@[i] == p) <==> in_index_ranges(r@, p) by {
                    if in_index_ranges(r@, p) {
                        let j = choose|j: int| 0 <= j < r@.len() && (#[trigger] r@[j]).0 <= p <= r@[j].1;
                        assert(r@[j].1 < cur);
                    }
                }
                break;
            },
            Some(m) => {
                let ghost jm = choose|j: int|
                    0 <= j < r@.len() && (#[trigger] r@[j]).1 >= cur && m == (if r@[j].0 >= cur {
                        r@[j].0
                    } else {
                        cur
                    });
                assert(m <= r@[jm].1);
                let ghost old_out = out@;
                out.push(m);
                proof {
                    assert(in_index_ranges(r@, m as int));
                    assert forall|p: int| p < m + 1 implies ((exists|i: int|
                        0 <= i < out.len() && out@[i] == p) <==> in_index_ranges(r@, p)) by {
                        if p < cur {
                            if exists|i: int| 0 <= i < old_out.len() && old_out[i] == p {
                                let i = choose|i: int| 0 <= i < old_out.len() && old_out[i] == p;
                                assert(out@[i] == p);
                            }
                            if exists|i: int| 0 <= i < out.len() && out@[i] == p {
                                let i = choose|i: int| 0 <= i < out.len() && out@[i] == p;
                                if i < old_out.len() {
                                    assert(old_out[i] == p);
                                }
                            }
                        } else if p < m {
                            if in_index_ranges(r@, p) {
                                let j = choose|j: int| 0 <= j < r@.len() && (#[trigger] r@[j]).0 <= p <= r@[j].1;
                                assert(r@[j].1 >= cur);
                            }
                            if exists|i: int| 0 <= i < out.len() && out@[i] == p {
                                let i = choose|i: int| 0 <= i < out.len() && out@[i] == p;
                                if i < old_out.len() {
                                    assert(old_out[i] < cur);
                                }
                            }
                        } else {
                            assert(out@[out@.len() - 1] == p);
                        }
                    }
                    assert forall|i: int, j: int| 0 <= i < j < out@.len() implies out@[i] < out@[j] by {
                        if j == out@.len() - 1 {
                            assert(old_out[i] < cur);
                        } else {
                            assert(old_out[i] < old_out[j]);
                        }
                    }
                }
                cur = m + 1;
            },
        }
    }
    out
}

/// The 0-based indices, within a list of `total` items, that a specification
/// such as `"1,3-4"` selects: comma-separated 1-based positions `n` and
/// ranges `a-b`, or with a leading `-` positions counted from the end
/// (`-1` is the last item, `-1-3` the last three). Positions outside the list
/// and tokens that do not parse are passed over. The result is in increasing
/// order, each index once.
pub fn parse_index_spec(spec: &str, total: usize) -> (v: Vec<usize>)
    ensures
        strictly_increasing_usize(v@),
        forall|p: int|
            (exists|i: int| 0 <= i < v.len() && v@[i] == p) <==> spec_selects(spec@, total as nat, p),
{
    let parts = split_chars(&chars_of(spec), ',');
    let ghost ps = seq_views(parts@);
    let ghost toks = nonempty_trimmed(ps);
    let mut ranges: Vec<(usize, usize)> = Vec::new();
    let mut i: usize = 0;
    while i < parts.len()
        invariant
            i <= parts.len(),
            ps == seq_views(parts@),
            ps == split_on(spec@, ','),
            forall|k: int| 0 <= k < ranges.len() ==> (#[trigger] ranges@[k]).0 <= ranges@[k].1 < total,
            forall|p: int|
                in_index_ranges(ranges@, p) <==> exists|k: int|
                    0 <= k < nonempty_trimmed(ps.take(i as int)).len() && #[trigger] token_selects(
                        nonempty_trimmed(ps.take(i as int))[k],
                        total as nat,
                        p,
                    ),
        decreases parts.len() - i,
    {
        let ghost before = nonempty_trimmed(ps.take(i as int));
        let ghost old_ranges = ranges@;
        assert(ps.take(i + 1).drop_last() =~= ps.take(i as int));
        assert(ps.take(i + 1).last() == parts@[i as int]@);
        let t = trim_chars(&parts[i]);
        if t.len() > 0 {
            let ghost after = nonempty_trimmed(ps.take(i + 1));
            assert(after == before.push(t@));
            let tr = token_range(&t, total);
            match tr {
                Some(x) => {
                    ranges.push(x);
                },
                None => {},
            }
            assert forall|p: int|
                in_index_ranges(ranges@, p) <==> exists|k: int|
                    0 <= k < after.len() && #[trigger] token_selects(after[k], total as nat, p) by {
                if in_index_ranges(ranges@, p) {
                    let j = choose|j: int| 0 <= j < ranges@.len() && (#[trigger] ranges@[j]).0 <= p <= ranges@[j].1;
                    if j < old_ranges.len() {
                        assert(old_ranges[j] == ranges@[j]);
                        assert(in_index_ranges(old_ranges, p));
                        let k = choose|k: int| 0 <= k < before.len() && #[trigger] token_selects(before[k], total as nat, p);
                        assert(after[k] == before[k]);
                    } else {
                        assert(token_selects(after[after.len() - 1], total as nat, p));
                    }
                }
                if exists|k: int| 0 <= k < after.len() && #[trigger] token_selects(after[k], total as nat, p) {
                    let k = choose|k: int| 0 <= k < after.len() && #[trigger] token_selects(after[k], total as nat, p);
                    if k < before.len() {
                        assert(after[k] == before[k]);
                        assert(in_index_ranges(old_ranges, p));
                        let j = choose|j: int| 0 <= j < old_ranges.len() && (#[trigger] old_ranges[j]).0 <= p <= old_ranges[j].1;
                        assert(ranges@[j] == old_ranges[j]);
                    } else {
                        assert(token_selects(t@, total as nat, p));
                        assert(ranges@[ranges@.len() - 1] == tr->0);
                    }
                }
            }
        } else {
            assert(nonempty_trimmed(ps.take(i + 1)) == before);
        }
        i = i + 1;
    }
    assert(ps.take(parts.len() as int) =~= ps);
    let v = sorted_index_union(&ranges, total);
    assert forall|p: int|
        (exists|i: int| 0 <= i < v.len() && v@[i] == p) <==> spec_selects(spec@, total as nat, p) by {
        assert(in_index_ranges(ranges@, p) <==> exists|k: int|
            0 <= k < toks.len() && #[trigger] token_selects(toks[k], total as nat, p));
    }
    v
}

/// `order` lists positions `0..keys.len()`, each once, by increasing key,
/// equal keys in their own order: the order a stable sort by key gives.
pub open spec fn is_stable_key_order(keys: Seq<u32>, order: Seq<usize>) -> bool {
    &&& order.len() == keys.len()
    &&& forall|a: int| 0 <= a < order.len() ==> (#[trigger] order[a]) < keys.len()
    &&& forall|a: int, b: int|
        0 <= a < b < order.len() ==> (keys[#[trigger] order[a] as int] < keys[#[trigger] order[b] as int]
            || (keys[order[a] as int] == keys[order[b] as int] && order[a] < order[b]))
}

/// The positions of `keys` in the order of a stable sort by key.
pub fn order_by_key(keys: &Vec<u32>) -> (r: Vec<usize>)
    ensures
        is_stable_key_order(keys@, r@),
{
    let mut out: Vec<usize> = Vec::new();
    let mut i: usize = 0;
    while i < keys.len()
        invariant
            i <= keys@.len(),
            out@.len() == i,
            forall|a: int| 0 <= a < out@.len() ==> (#[trigger] out@[a]) < i,
            forall|a: int, b: int|
                0 <= a < b < out@.len() ==> (keys@[#[trigger] out@[a] as int] < keys@[#[trigger] out@[b] as int]
                    || (keys@[out@[a] as int] == keys@[out@[b] as int] && out@[a] < out@[b])),
        decreases keys@.len() - i,
    {
        let k = keys[i];
        let mut p: usize = 0;
        while p < out.len() && keys[out[p]] <= k
            invariant
                p <= out@.len(),
                i < keys@.len(),
                k == keys@[i as int],
                forall|a: int| 0 <= a < out@.len() ==> (#[trigger] out@[a]) < i,
                forall|a: int| 0 <= a < p ==> keys@[#[trigger] out@[a] as int] <= k,
            decreases out@.len() - p,
        {
            p = p + 1;
        }
        proof {
            assert forall|a: int| p <= a < out@.len() implies k < keys@[#[trigger] out@[a] as int] by {
                if a > p {
                    assert(keys@[out@[p as int] as int] < keys@[out@[a] as int] || keys@[out@[p as int] as int]
                        == keys@[out@[a] as int]);
                }
            }
        }
        let ghost old_out = out@;
        out.insert(p, i);
        proof {
            assert forall|a: int, b: int|
                0 <= a < b < out@.len() implies (keys@[#[trigger] out@[a] as int] < keys@[#[trigger] out@[b] as int]
                    || (keys@[out@[a] as int] == keys@[out@[b] as int] && out@[a] < out@[b])) by {
                if a < p && b < p {
                    assert(out@[a] == old_out[a] && out@[b] == old_out[b]);
                } else if a < p && b == p {
                    assert(out@[a] == old_out[a]);
                } else if a < p {
                    assert(out@[a] == old_out[a] && out@[b] == old_out[b - 1]);
                } else if a == p {
                    assert(out@[b] == old_out[b - 1]);
                } else {
                    assert(out@[a] == old_out[a - 1] && out@[b] == old_out[b - 1]);
                }
            }
            assert forall|a: int| 0 <= a < out@.len() implies (#[trigger] out@[a]) < i + 1 by {
                if a < p {
                    assert(out@[a] == old_out[a]);
                } else if a > p {
                    assert(out@[a] == old_out[a - 1]);
                }
            }
        }
        i = i + 1;
    }
    out
}

} // verus!
