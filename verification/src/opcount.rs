//! How often each operator occurs in a content stream, in the order that a
//! statistics listing shows them: most frequent first, equal counts by
//! name.
use vstd::prelude::*;
use crate::chars::{chars_of, eq_str};

verus! {

/// Whether `a` comes before `b` in the order of `str`: character by
/// character by code point, a proper prefix first.
pub open spec fn text_lt(a: Seq<char>, b: Seq<char>) -> bool
    decreases a.len(),
{
    if a.len() == 0 {
        b.len() > 0
    } else if b.len() == 0 {
        false
    } else if a[0] != b[0] {
        a[0] < b[0]
    } else {
        text_lt(a.skip(1), b.skip(1))
    }
}

pub proof fn lemma_text_lt_irreflexive(a: Seq<char>)
    ensures
        !text_lt(a, a),
    decreases a.len(),
{
    if a.len() > 0 {
        lemma_text_lt_irreflexive(a.skip(1));
    }
}

pub proof fn lemma_text_lt_total(a: Seq<char>, b: Seq<char>)
    requires
        a != b,
    ensures
        text_lt(a, b) || text_lt(b, a),
    decreases a.len(),
{
    if a.len() > 0 && b.len() > 0 && a[0] == b[0] {
        if a.skip(1) == b.skip(1) {
            assert(a =~= seq![a[0]] + a.skip(1));
            assert(b =~= seq![b[0]] + b.skip(1));
        }
        lemma_text_lt_total(a.skip(1), b.skip(1));
    } else if a.len() == 0 && b.len() == 0 {
        assert(a =~= b);
    }
}

pub proof fn lemma_text_lt_transitive(a: Seq<char>, b: Seq<char>, c: Seq<char>)
    requires
        text_lt(a, b),
        text_lt(b, c),
    ensures
        text_lt(a, c),
    decreases a.len(),
{
    if a.len() > 0 && b.len() > 0 && c.len() > 0 && a[0] == b[0] && b[0] == c[0] {
        lemma_text_lt_transitive(a.skip(1), b.skip(1), c.skip(1));
    }
}

/// How many of `ops` are the operator `name`.
pub open spec fn occurrences(ops: Seq<String>, name: Seq<char>) -> nat
    decreases ops.len(),
{
    if ops.len() == 0 {
        0
    } else {
        occurrences(ops.drop_last(), name) + if ops.last()@ == name {
            1nat
        } else {
            0nat
        }
    }
}

proof fn lemma_occurrences_pos(ops: Seq<String>, name: Seq<char>)
    requires
        occurrences(ops, name) > 0,
    ensures
        exists|m: int| 0 <= m < ops.len() && (#[trigger] ops[m])@ == name,
    decreases ops.len(),
{
    if ops.last()@ != name {
        lemma_occurrences_pos(ops.drop_last(), name);
        let m = choose|m: int| 0 <= m < ops.len() - 1 && (#[trigger] ops.drop_last()[m])@ == name;
        assert(ops[m] == ops.drop_last()[m]);
    } else {
        assert(ops[ops.len() - 1]@ == name);
    }
}

proof fn lemma_occurrences_le(ops: Seq<String>, name: Seq<char>)
    ensures
        occurrences(ops, name) <= ops.len(),
    decreases ops.len(),
{
    if ops.len() > 0 {
        lemma_occurrences_le(ops.drop_last(), name);
    }
}

/// An entry of the listing, as a name and a count.
pub open spec fn entry_view(e: (String, usize)) -> (Seq<char>, nat) {
    (e.0@, e.1 as nat)
}

/// Entry `a` is listed before entry `b`: it has the larger count, or the
/// same count and the name that comes first.
pub open spec fn ranks_before(a: (Seq<char>, nat), b: (Seq<char>, nat)) -> bool {
    a.1 > b.1 || (a.1 == b.1 && text_lt(a.0, b.0))
}

/// One of the entries `r` is for the operator `name`.
pub open spec fn has_entry(r: Seq<(String, usize)>, name: Seq<char>) -> bool {
    exists|i: int| 0 <= i < r.len() && (#[trigger] r[i]).0@ == name
}

proof fn lemma_ranks_total(a: (Seq<char>, nat), b: (Seq<char>, nat))
    requires
        a.0 != b.0,
    ensures
        ranks_before(a, b) || ranks_before(b, a),
{
    lemma_text_lt_total(a.0, b.0);
}

proof fn lemma_ranks_transitive(a: (Seq<char>, nat), b: (Seq<char>, nat), c: (Seq<char>, nat))
    requires
        ranks_before(a, b),
        ranks_before(b, c),
    ensures
        ranks_before(a, c),
{
    if a.1 == b.1 && b.1 == c.1 {
        lemma_text_lt_transitive(a.0, b.0, c.0);
    }
}

fn text_lt_exec(a: &String, b: &String) -> (r: bool)
    ensures
        r == text_lt(a@, b@),
{
    let x = chars_of(a.as_str());
    let y = chars_of(b.as_str());
    let mut i: usize = 0;
    assert(x@.skip(0) =~= x@ && y@.skip(0) =~= y@);
    while i < x.len() && i < y.len()
        invariant
            x@ == a@,
            y@ == b@,
            i <= x.len(),
            i <= y.len(),
            text_lt(x@, y@) == text_lt(x@.skip(i as int), y@.skip(i as int)),
        decreases x.len() - i,
    {
        if x[i] != y[i] {
            assert(x@.skip(i as int)[0] == x@[i as int] && y@.skip(i as int)[0] == y@[i as int]);
            return x[i] < y[i];
        }
        assert(x@.skip(i as int).skip(1) =~= x@.skip(i + 1));
        assert(y@.skip(i as int).skip(1) =~= y@.skip(i + 1));
        i = i + 1;
    }
    x.len() < y.len()
}

fn ranks_before_exec(a: &(String, usize), b: &(String, usize)) -> (r: bool)
    ensures
        r == ranks_before(entry_view(*a), entry_view(*b)),
{
    a.1 > b.1 || (a.1 == b.1 && text_lt_exec(&a.0, &b.0))
}

/// Each operator of `ops` once, with how often it occurs, in first
/// occurrence order.
fn tally(ops: &Vec<String>) -> (r: Vec<(String, usize)>)
    ensures
        forall|i: int|
            0 <= i < r@.len() ==> (#[trigger] r@[i]).1 == occurrences(ops@, r@[i].0@) && r@[i].1 > 0,
        forall|k: int| 0 <= k < ops@.len() ==> has_entry(r@, (#[trigger] ops@[k])@),
        forall|i: int, j: int| 0 <= i < j < r@.len() ==> (#[trigger] r@[i]).0@ != (#[trigger] r@[j]).0@,
{
    let mut r: Vec<(String, usize)> = Vec::new();
    let n = ops.len();
    let mut k: usize = 0;
    while k < n
        invariant
            n == ops@.len(),
            k <= ops@.len(),
            forall|i: int|
                0 <= i < r@.len() ==> (#[trigger] r@[i]).1 == occurrences(ops@.take(k as int), r@[i].0@)
                    && r@[i].1 > 0,
            forall|m: int| 0 <= m < k ==> has_entry(r@, (#[trigger] ops@[m])@),
            forall|i: int, j: int| 0 <= i < j < r@.len() ==> (#[trigger] r@[i]).0@ != (#[trigger] r@[j]).0@,
        decreases ops@.len() - k,
    {
        let ghost before = r@;
        assert(ops@.take(k + 1).drop_last() =~= ops@.take(k as int));
        let name = chars_of(ops[k].as_str());
        let mut found = false;
        let mut i: usize = 0;
        while i < r.len()
            invariant
                k < n,
                n == ops@.len(),
                name@ == ops@[k as int]@,
                i <= r@.len(),
                r@.len() == before.len(),
                ops@.take(k + 1).drop_last() == ops@.take(k as int),
                forall|m: int| 0 <= m < r@.len() ==> (#[trigger] r@[m]).0 == before[m].0,
                forall|m: int|
                    0 <= m < r@.len() ==> (#[trigger] r@[m]).1 == (if found && before[m].0@ == name@ {
                        before[m].1 + 1
                    } else {
                        before[m].1 as int
                    }),
                found ==> exists|m: int| 0 <= m < i && (#[trigger] before[m]).0@ == name@,
                !found ==> forall|m: int| 0 <= m < i ==> (#[trigger] before[m]).0@ != name@,
                forall|a: int, b: int|
                    0 <= a < b < before.len() ==> (#[trigger] before[a]).0@ != (#[trigger] before[b]).0@,
                forall|m: int|
                    0 <= m < before.len() ==> (#[trigger] before[m]).1 == occurrences(
                        ops@.take(k as int),
                        before[m].0@,
                    ) && before[m].1 > 0,
            decreases r@.len() - i,
        {
            if !found && eq_str(&name, r[i].0.as_str()) {
                proof {
                    lemma_occurrences_le(ops@.take(k as int), name@);
                    assert(r@[i as int].1 == before[i as int].1);
                    assert(before[i as int].0@ == name@);
                    assert(ops@.take(k as int).len() == k);
                    assert(r@[i as int].1 <= k);
                }
                let c = r[i].1 + 1;
                let s = r[i].0.clone();
                r.set(i, (s, c));
                found = true;
            }
            i = i + 1;
        }
        if !found {
            r.push((ops[k].clone(), 1));
        }
        proof {
            let t = ops@.take(k + 1);
            assert(t.last() == ops@[k as int]);
            assert forall|m: int| 0 <= m < r@.len() implies (#[trigger] r@[m]).1 == occurrences(t, r@[m].0@)
                && r@[m].1 > 0 by {
                if m < before.len() {
                    assert(r@[m].0 == before[m].0);
                } else {
                    assert(r@[m].0@ == name@);
                    if occurrences(ops@.take(k as int), name@) > 0 {
                        lemma_occurrences_pos(ops@.take(k as int), name@);
                        let w = choose|w: int| 0 <= w < k && (#[trigger] ops@.take(k as int)[w])@ == name@;
                        assert(ops@.take(k as int)[w] == ops@[w]);
                        assert(has_entry(before, ops@[w]@));
                    }
                }
            }
            assert forall|a: int, b: int| 0 <= a < b < r@.len() implies (#[trigger] r@[a]).0@ != (#[trigger] r@[b]).0@ by {
                if b < before.len() {
                    assert(r@[a].0 == before[a].0 && r@[b].0 == before[b].0);
                } else {
                    assert(r@[a].0 == before[a].0);
                }
            }
            assert forall|m: int| 0 <= m < k + 1 implies has_entry(r@, (#[trigger] ops@[m])@) by {
                if m < k {
                    let w = choose|w: int| 0 <= w < before.len() && (#[trigger] before[w]).0@ == ops@[m]@;
                    assert(r@[w].0@ == ops@[m]@);
                } else if found {
                    let w = choose|w: int| 0 <= w < before.len() && (#[trigger] before[w]).0@ == name@;
                    assert(r@[w].0@ == ops@[m]@);
                } else {
                    assert(r@[before.len() as int].0@ == ops@[m]@);
                }
            }
        }
        k = k + 1;
    }
    assert(ops@.take(ops@.len() as int) =~= ops@);
    r
}

spec fn listed_before(entries: Seq<(String, usize)>, i: int, x: (String, usize)) -> bool {
    exists|j: int| 0 <= j < i && entries[j] == x
}

spec fn listed_in(out: Seq<(String, usize)>, x: (String, usize)) -> bool {
    exists|m: int| 0 <= m < out.len() && out[m] == x
}

/// Each operator of `ops` once with how often it occurs: the most frequent
/// first, operators with equal counts in the order of their names.
pub fn operator_counts(ops: &Vec<String>) -> (r: Vec<(String, usize)>)
    ensures
        forall|i: int|
            0 <= i < r@.len() ==> (#[trigger] r@[i]).1 == occurrences(ops@, r@[i].0@) && r@[i].1 > 0,
        forall|k: int| 0 <= k < ops@.len() ==> has_entry(r@, (#[trigger] ops@[k])@),
        forall|i: int, j: int|
            0 <= i < j < r@.len() ==> ranks_before(entry_view(#[trigger] r@[i]), entry_view(#[trigger] r@[j])),
{
    let entries = tally(ops);
    let mut out: Vec<(String, usize)> = Vec::new();
    let mut i: usize = 0;
    while i < entries.len()
        invariant
            i <= entries@.len(),
            forall|a: int, b: int|
                0 <= a < b < entries@.len() ==> (#[trigger] entries@[a]).0@ != (#[trigger] entries@[b]).0@,
            forall|m: int| 0 <= m < out@.len() ==> listed_before(entries@, i as int, #[trigger] out@[m]),
            forall|j: int| 0 <= j < i ==> listed_in(out@, #[trigger] entries@[j]),
            forall|a: int, b: int|
                0 <= a < b < out@.len() ==> ranks_before(entry_view(#[trigger] out@[a]), entry_view(#[trigger] out@[b])),
        decreases entries@.len() - i,
    {
        let e = (entries[i].0.clone(), entries[i].1);
        let mut p: usize = 0;
        while p < out.len() && !ranks_before_exec(&e, &out[p])
            invariant
                p <= out@.len(),
                forall|q: int| 0 <= q < p ==> !ranks_before(entry_view(e), entry_view(#[trigger] out@[q])),
            decreases out@.len() - p,
        {
            p = p + 1;
        }
        proof {
            assert forall|q: int| 0 <= q < out@.len() implies (#[trigger] out@[q]).0@ != e.0@ by {
                assert(listed_before(entries@, i as int, out@[q]));
                let j = choose|j: int| 0 <= j < i && entries@[j] == out@[q];
                assert(entries@[j].0@ != entries@[i as int].0@);
            }
            assert forall|q: int| 0 <= q < p implies ranks_before(entry_view(#[trigger] out@[q]), entry_view(e)) by {
                lemma_ranks_total(entry_view(out@[q]), entry_view(e));
            }
            assert forall|q: int| p <= q < out@.len() implies ranks_before(entry_view(e), entry_view(#[trigger] out@[q])) by {
                if q > p {
                    lemma_ranks_transitive(entry_view(e), entry_view(out@[p as int]), entry_view(out@[q]));
                }
            }
        }
        let ghost old_out = out@;
        out.insert(p, e);
        proof {
            assert forall|a: int, b: int|
                0 <= a < b < out@.len() implies ranks_before(entry_view(#[trigger] out@[a]), entry_view(#[trigger] out@[b])) by {
                if a < p && b < p {
                    assert(out@[a] == old_out[a] && out@[b] == old_out[b]);
                } else if a < p && b == p {
                    assert(out@[a] == old_out[a]);
                } else if a < p {
                    assert(out@[a] == old_out[a] && out@[b] == old_out[b - 1]);
                    assert(ranks_before(entry_view(old_out[a]), entry_view(e)));
                    lemma_ranks_transitive(entry_view(old_out[a]), entry_view(e), entry_view(old_out[b - 1]));
                } else if a == p {
                    assert(out@[b] == old_out[b - 1]);
                } else {
                    assert(out@[a] == old_out[a - 1] && out@[b] == old_out[b - 1]);
                }
            }
            assert forall|m: int| 0 <= m < out@.len() implies listed_before(entries@, i + 1, #[trigger] out@[m]) by {
                if m < p {
                    assert(out@[m] == old_out[m]);
                    assert(listed_before(entries@, i as int, old_out[m]));
                } else if m == p {
                    assert(entries@[i as int] == out@[m]);
                } else {
                    assert(out@[m] == old_out[m - 1]);
                    assert(listed_before(entries@, i as int, old_out[m - 1]));
                }
            }
            assert forall|j: int| 0 <= j < i + 1 implies listed_in(out@, #[trigger] entries@[j]) by {
                if j < i {
                    assert(listed_in(old_out, entries@[j]));
                    let m = choose|m: int| 0 <= m < old_out.len() && old_out[m] == entries@[j];
                    if m < p {
                        assert(out@[m] == entries@[j]);
                    } else {
                        assert(out@[m + 1] == entries@[j]);
                    }
                } else {
                    assert(out@[p as int] == entries@[j]);
                }
            }
        }
        i = i + 1;
    }
    proof {
        assert forall|m: int| 0 <= m < out@.len() implies (#[trigger] out@[m]).1 == occurrences(ops@, out@[m].0@)
            && out@[m].1 > 0 by {
            assert(listed_before(entries@, entries@.len() as int, out@[m]));
            let j = choose|j: int| 0 <= j < entries@.len() && entries@[j] == out@[m];
            assert(entries@[j].1 == occurrences(ops@, entries@[j].0@));
        }
        assert forall|k: int| 0 <= k < ops@.len() implies has_entry(out@, (#[trigger] ops@[k])@) by {
            assert(has_entry(entries@, ops@[k]@));
            let j = choose|j: int| 0 <= j < entries@.len() && (#[trigger] entries@[j]).0@ == ops@[k]@;
            assert(listed_in(out@, entries@[j]));
            let m = choose|m: int| 0 <= m < out@.len() && out@[m] == entries@[j];
            assert(out@[m].0@ == ops@[k]@);
        }
    }
    out
}

} // verus!
