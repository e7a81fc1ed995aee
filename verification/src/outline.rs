//! The shape of a document outline built from a flat list of headings,
//! each with a level: which heading is the parent of which, and the sibling
//! links between them.
use vstd::prelude::*;

verus! {

/// The level of entry `i`, where level 0 counts as 1.
pub open spec fn eff_level(levels: Seq<usize>, i: int) -> int {
    if levels[i] == 0 {
        1
    } else {
        levels[i] as int
    }
}

/// The nearest entry at or before `j` whose level is below that of `i`.
pub open spec fn parent_scan(levels: Seq<usize>, i: int, j: int) -> Option<int>
    decreases j + 1,
{
    if j < 0 {
        None
    } else if eff_level(levels, j) < eff_level(levels, i) {
        Some(j)
    } else {
        parent_scan(levels, i, j - 1)
    }
}

/// The parent of entry `i`: the nearest earlier entry of a lower level;
/// `None` for an entry that sits at the top of the outline.
pub open spec fn parent_of(levels: Seq<usize>, i: int) -> Option<int> {
    parent_scan(levels, i, i - 1)
}

/// The entries before `n` whose parent is `par`, in order.
pub open spec fn siblings_upto(levels: Seq<usize>, par: Option<int>, n: int) -> Seq<int>
    decreases n,
{
    if n <= 0 {
        Seq::empty()
    } else {
        let rest = siblings_upto(levels, par, n - 1);
        if parent_of(levels, n - 1) == par {
            rest.push(n - 1)
        } else {
            rest
        }
    }
}

/// The children of entry `p`, in order.
pub open spec fn children_of(levels: Seq<usize>, p: int) -> Seq<int> {
    siblings_upto(levels, Some(p), levels.len() as int)
}

/// The entries at the top of the outline, in order.
pub open spec fn outline_roots(levels: Seq<usize>) -> Seq<int> {
    siblings_upto(levels, None, levels.len() as int)
}

/// The sibling just before entry `i`.
pub open spec fn prev_sibling_of(levels: Seq<usize>, i: int) -> Option<int> {
    let s = siblings_upto(levels, parent_of(levels, i), i);
    if s.len() > 0 {
        Some(s.last())
    } else {
        None
    }
}

/// The sibling just after entry `i`, among the entries before `n`.
pub open spec fn next_sibling_upto(levels: Seq<usize>, i: int, n: int) -> Option<int> {
    let k = siblings_upto(levels, parent_of(levels, i), i).len() as int;
    let s = siblings_upto(levels, parent_of(levels, i), n);
    if k + 1 < s.len() {
        Some(s[k + 1])
    } else {
        None
    }
}

/// The sibling just after entry `i`.
pub open spec fn next_sibling_of(levels: Seq<usize>, i: int) -> Option<int> {
    next_sibling_upto(levels, i, levels.len() as int)
}

pub open spec fn first_of(s: Seq<int>) -> Option<int> {
    if s.len() > 0 {
        Some(s[0])
    } else {
        None
    }
}

pub open spec fn last_of(s: Seq<int>) -> Option<int> {
    if s.len() > 0 {
        Some(s.last())
    } else {
        None
    }
}

pub open spec fn opt_int(o: Option<usize>) -> Option<int> {
    match o {
        Some(x) => Some(x as int),
        None => None,
    }
}

/// The links of an outline with one item per entry.
pub struct OutlinePlan {
    pub parent: Vec<Option<usize>>,
    pub first_child: Vec<Option<usize>>,
    pub last_child: Vec<Option<usize>>,
    pub prev_sibling: Vec<Option<usize>>,
    pub next_sibling: Vec<Option<usize>>,
    pub child_count: Vec<usize>,
    pub roots: Vec<usize>,
}

impl OutlinePlan {
    /// The plan is the outline of the entries with levels `levels`.
    pub open spec fn describes(&self, levels: Seq<usize>) -> bool {
        let n = levels.len();
        &&& self.parent@.len() == n
        &&& self.first_child@.len() == n
        &&& self.last_child@.len() == n
        &&& self.prev_sibling@.len() == n
        &&& self.next_sibling@.len() == n
        &&& self.child_count@.len() == n
        &&& self.roots@.map_values(|r: usize| r as int) == outline_roots(levels)
        &&& forall|i: int|
            0 <= i < n ==> {
                &&& opt_int(#[trigger] self.parent@[i]) == parent_of(levels, i)
                &&& opt_int(self.prev_sibling@[i]) == prev_sibling_of(levels, i)
                &&& opt_int(self.next_sibling@[i]) == next_sibling_of(levels, i)
                &&& opt_int(self.first_child@[i]) == first_of(children_of(levels, i))
                &&& opt_int(self.last_child@[i]) == last_of(children_of(levels, i))
                &&& self.child_count@[i] == children_of(levels, i).len()
            }
    }
}

/// The entries `j` before `i` that are still open when entry `i` comes:
/// every entry between them has a higher level.
pub open spec fn on_spine(levels: Seq<usize>, j: int, i: int) -> bool {
    forall|k: int| j < k < i ==> eff_level(levels, k) > eff_level(levels, j)
}

proof fn lemma_parent_scan(levels: Seq<usize>, i: int, t: int, j: int)
    requires
        0 <= i < levels.len(),
        -1 <= t <= j < i,
        t >= 0 ==> eff_level(levels, t) < eff_level(levels, i),
        forall|k: int| t < k <= j ==> eff_level(levels, k) >= eff_level(levels, i),
    ensures
        parent_scan(levels, i, j) == (if t >= 0 {
            Some(t)
        } else {
            None::<int>
        }),
    decreases j - t,
{
    if j > t {
        lemma_parent_scan(levels, i, t, j - 1);
    }
}

/// Entries between the top of the stack and `i` have a level of at least
/// that of `i`.
proof fn lemma_gap(levels: Seq<usize>, st: Seq<usize>, i: int, t: int, k: int)
    requires
        0 <= i < levels.len() <= usize::MAX,
        -1 <= t < k < i,
        forall|j: int| 0 <= j < i ==> (st.contains(j as usize) <==> on_spine(levels, j, i)),
        forall|q: int|
            0 <= q < st.len() && st[q] > t ==> eff_level(levels, #[trigger] st[q] as int)
                >= eff_level(levels, i),
    ensures
        eff_level(levels, k) >= eff_level(levels, i),
    decreases i - k,
{
    if st.contains(k as usize) {
        let q = choose|q: int| 0 <= q < st.len() && st[q] == k as usize;
        assert(st[q] as int == k);
    } else {
        assert(!on_spine(levels, k, i));
        let m = choose|m: int| k < m < i && !(eff_level(levels, m) > eff_level(levels, k));
        lemma_gap(levels, st, i, t, m);
    }
}

proof fn lemma_siblings_len(levels: Seq<usize>, par: Option<int>, n: int)
    ensures
        forall|q: int|
            0 <= q < siblings_upto(levels, par, n).len() ==> 0 <= #[trigger] siblings_upto(
                levels,
                par,
                n,
            )[q] < n && parent_of(levels, siblings_upto(levels, par, n)[q]) == par,
        forall|q1: int, q2: int|
            0 <= q1 < q2 < siblings_upto(levels, par, n).len() ==> #[trigger] siblings_upto(
                levels,
                par,
                n,
            )[q1] < #[trigger] siblings_upto(levels, par, n)[q2],
        siblings_upto(levels, par, n).len() <= if n < 0 {
            0
        } else {
            n
        },
    decreases n,
{
    if n > 0 {
        lemma_siblings_len(levels, par, n - 1);
    }
}

/// A prefix of the sibling list stays a prefix as more entries come.
proof fn lemma_siblings_prefix(levels: Seq<usize>, par: Option<int>, n: int, m: int)
    requires
        0 <= n <= m,
    ensures
        siblings_upto(levels, par, n) == siblings_upto(levels, par, m).take(
            siblings_upto(levels, par, n).len() as int,
        ),
        siblings_upto(levels, par, n).len() <= siblings_upto(levels, par, m).len(),
    decreases m - n,
{
    if n < m {
        lemma_siblings_prefix(levels, par, n, m - 1);
        let a = siblings_upto(levels, par, n);
        let b = siblings_upto(levels, par, m - 1);
        let c = siblings_upto(levels, par, m);
        assert(c.take(b.len() as int) =~= b);
        assert(c.take(a.len() as int) =~= b.take(a.len() as int));
    } else {
        let a = siblings_upto(levels, par, n);
        assert(a.take(a.len() as int) =~= a);
    }
}

/// The siblings before entry `s[q]` are the first `q` of the list.
proof fn lemma_siblings_before(levels: Seq<usize>, par: Option<int>, n: int, q: int)
    requires
        0 <= n,
        0 <= q < siblings_upto(levels, par, n).len(),
    ensures
        siblings_upto(levels, par, siblings_upto(levels, par, n)[q]) == siblings_upto(
            levels,
            par,
            n,
        ).take(q),
    decreases n,
{
    let s = siblings_upto(levels, par, n);
    let rest = siblings_upto(levels, par, n - 1);
    lemma_siblings_len(levels, par, n);
    if q < rest.len() {
        lemma_siblings_before(levels, par, n - 1, q);
        assert(s[q] == rest[q]);
        assert(s.take(q) =~= rest.take(q));
    } else {
        assert(s[q] == n - 1);
        assert(s =~= rest.push(n - 1));
        assert(s.take(q) =~= rest);
    }
}

/// Entry `j` stands in its sibling list at the place that counts the
/// siblings before it.
proof fn lemma_sibling_index(levels: Seq<usize>, par: Option<int>, j: int, n: int)
    requires
        0 <= j < n,
        parent_of(levels, j) == par,
    ensures
        siblings_upto(levels, par, j).len() < siblings_upto(levels, par, n).len(),
        siblings_upto(levels, par, n)[siblings_upto(levels, par, j).len() as int] == j,
{
    lemma_siblings_prefix(levels, par, j + 1, n);
    let a = siblings_upto(levels, par, j);
    let b = siblings_upto(levels, par, j + 1);
    assert(b == a.push(j));
    assert(siblings_upto(levels, par, n).take(b.len() as int)[a.len() as int] == j);
}

fn eff_level_exec(l: usize) -> (r: usize)
    ensures
        r == (if l == 0 {
            1
        } else {
            l
        }),
{
    if l == 0 {
        1
    } else {
        l
    }
}

fn filled<T: Copy>(n: usize, x: T) -> (v: Vec<T>)
    ensures
        v@.len() == n,
        forall|k: int| 0 <= k < n ==> v@[k] == x,
{
    let mut v: Vec<T> = Vec::new();
    let mut k: usize = 0;
    while k < n
        invariant
            k <= n,
            v@.len() == k,
            forall|m: int| 0 <= m < k ==> v@[m] == x,
        decreases n - k,
    {
        v.push(x);
        k = k + 1;
    }
    v
}

/// The outline of a list of headings with the given levels: each entry's
/// parent is the nearest earlier entry of a lower level (level 0 counting
/// as 1), entries with no such entry stand at the top, and siblings are
/// linked in order. `None` for an empty list, which has no outline.
pub fn plan_outline(levels: &Vec<usize>) -> (r: Option<OutlinePlan>)
    ensures
        levels@.len() == 0 <==> r is None,
        r matches Some(p) ==> p.describes(levels@),
{
    let n = levels.len();
    if n == 0 {
        return None;
    }
    let mut parent: Vec<Option<usize>> = filled(n, None);
    let mut first_child: Vec<Option<usize>> = filled(n, None);
    let mut last_child: Vec<Option<usize>> = filled(n, None);
    let mut prev_sibling: Vec<Option<usize>> = filled(n, None);
    let mut next_sibling: Vec<Option<usize>> = filled(n, None);
    let mut child_count: Vec<usize> = filled(n, 0);
    let mut roots: Vec<usize> = Vec::new();
    let mut stack: Vec<usize> = Vec::new();
    let ghost lv = levels@;
    let mut i: usize = 0;
    assert(roots@.map_values(|r: usize| r as int) =~= siblings_upto(lv, None, 0));
    while i < n
        invariant
            lv == levels@,
            n == lv.len(),
            i <= n,
            parent@.len() == n,
            first_child@.len() == n,
            last_child@.len() == n,
            prev_sibling@.len() == n,
            next_sibling@.len() == n,
            child_count@.len() == n,
            forall|q: int| 0 <= q < stack@.len() ==> (#[trigger] stack@[q]) < i,
            forall|q1: int, q2: int|
                0 <= q1 < q2 < stack@.len() ==> #[trigger] stack@[q1] < #[trigger] stack@[q2]
                    && eff_level(lv, stack@[q1] as int) < eff_level(lv, stack@[q2] as int),
            forall|j: int| 0 <= j < i ==> (stack@.contains(j as usize) <==> on_spine(lv, j, i as int)),
            forall|j: int| 0 <= j < i ==> opt_int(#[trigger] parent@[j]) == parent_of(lv, j),
            forall|p: int|
                0 <= p < n ==> {
                    &&& #[trigger] child_count@[p] == siblings_upto(lv, Some(p), i as int).len()
                    &&& opt_int(first_child@[p]) == first_of(siblings_upto(lv, Some(p), i as int))
                    &&& opt_int(last_child@[p]) == last_of(siblings_upto(lv, Some(p), i as int))
                },
            roots@.map_values(|r: usize| r as int) == siblings_upto(lv, None, i as int),
            forall|j: int| 0 <= j < i ==> opt_int(#[trigger] prev_sibling@[j]) == prev_sibling_of(lv, j),
            forall|j: int|
                0 <= j < i ==> opt_int(#[trigger] next_sibling@[j]) == next_sibling_upto(lv, j, i as int),
            forall|j: int| i <= j < n ==> (#[trigger] next_sibling@[j]) is None,
        decreases n - i,
    {
        let ghost st0 = stack@;
        let lvl_i = eff_level_exec(levels[i]);
        assert(lvl_i == eff_level(lv, i as int));
        while stack.len() > 0 && eff_level_exec(levels[stack[stack.len() - 1]]) >= lvl_i
            invariant
                lv == levels@,
                i < n == lv.len(),
                lvl_i == eff_level(lv, i as int),
                stack@.len() <= st0.len(),
                stack@ == st0.take(stack@.len() as int),
                forall|q: int| 0 <= q < st0.len() ==> (#[trigger] st0[q]) < i,
                forall|q: int|
                    stack@.len() <= q < st0.len() ==> eff_level(lv, #[trigger] st0[q] as int) >= lvl_i,
            decreases stack@.len(),
        {
            stack.pop();
        }
        let par: Option<usize> = if stack.len() > 0 {
            Some(stack[stack.len() - 1])
        } else {
            None
        };
        let ghost m = stack@.len() as int;
        let ghost t: int = match par {
            Some(x) => x as int,
            None => -1,
        };
        proof {
            assert forall|q: int| 0 <= q < st0.len() && st0[q] > t implies eff_level(
                lv,
                #[trigger] st0[q] as int,
            ) >= eff_level(lv, i as int) by {
                if q < m {
                    assert(st0[q] <= st0[m - 1]);
                    if q < m - 1 {
                        assert(st0[q] < st0[m - 1]);
                    }
                }
            }
            assert forall|k: int| t < k <= i - 1 implies eff_level(lv, k) >= eff_level(
                lv,
                i as int,
            ) by {
                lemma_gap(lv, st0, i as int, t, k);
            }
            if t >= 0 {
                assert(stack@[m - 1] == st0[m - 1]);
            }
            lemma_parent_scan(lv, i as int, t, i - 1);
            assert(opt_int(par) == parent_of(lv, i as int));
        }
        let ghost par_i = parent_of(lv, i as int);
        let ghost sib = siblings_upto(lv, par_i, i as int);
        let ghost old_next = next_sibling@;
        let ghost old_prev = prev_sibling@;
        let ghost old_first = first_child@;
        let ghost old_last = last_child@;
        let ghost old_count = child_count@;
        let ghost old_roots = roots@;
        proof {
            lemma_siblings_len(lv, par_i, i as int);
        }
        parent.set(i, par);
        let prev: Option<usize> = match par {
            Some(p) => last_child[p],
            None => if roots.len() > 0 {
                Some(roots[roots.len() - 1])
            } else {
                None
            },
        };
        proof {
            if let Some(p) = par {
                assert(p < i);
                assert(child_count@[p as int] == siblings_upto(lv, Some(p as int), i as int).len());
                assert(Some(p as int) == par_i);
            }
            if par is None {
                assert(roots@.map_values(|r: usize| r as int).len() == roots@.len());
                if roots@.len() > 0 {
                    assert(roots@.map_values(|r: usize| r as int)[roots@.len() - 1] == roots@[roots@.len()
                        - 1] as int);
                }
            }
            assert(opt_int(prev) == last_of(sib));
        }
        prev_sibling.set(i, prev);
        match prev {
            Some(q) => {
                next_sibling.set(q, Some(i));
            },
            None => {},
        }
        match par {
            Some(p) => {
                if prev.is_none() {
                    first_child.set(p, Some(i));
                }
                last_child.set(p, Some(i));
                let c = child_count[p];
                child_count.set(p, c + 1);
            },
            None => {
                roots.push(i);
            },
        }
        proof {
            let i1 = i as int + 1;
            assert forall|x: Option<int>|
                #[trigger] siblings_upto(lv, x, i1) == (if x == par_i {
                    siblings_upto(lv, x, i as int).push(i as int)
                } else {
                    siblings_upto(lv, x, i as int)
                }) by {}
            assert(siblings_upto(lv, par_i, i1) == sib.push(i as int));
            // the roots
            if par is None {
                assert(roots@.map_values(|r: usize| r as int) =~= old_roots.map_values(
                    |r: usize| r as int,
                ).push(i as int));
            } else {
                assert(roots@ == old_roots);
            }
            // the children counts and ends
            assert forall|p: int| 0 <= p < n implies {
                &&& #[trigger] child_count@[p] == siblings_upto(lv, Some(p), i1).len()
                &&& opt_int(first_child@[p]) == first_of(siblings_upto(lv, Some(p), i1))
                &&& opt_int(last_child@[p]) == last_of(siblings_upto(lv, Some(p), i1))
            } by {
                assert(siblings_upto(lv, Some(p), i1) == (if Some(p) == par_i {
                    siblings_upto(lv, Some(p), i as int).push(i as int)
                } else {
                    siblings_upto(lv, Some(p), i as int)
                }));
                assert(old_count[p] == siblings_upto(lv, Some(p), i as int).len());
                assert(opt_int(old_first[p]) == first_of(siblings_upto(lv, Some(p), i as int)));
                assert(opt_int(old_last[p]) == last_of(siblings_upto(lv, Some(p), i as int)));
                if Some(p) == par_i {
                    assert(par == Some(p as usize));
                    assert(child_count@[p] == old_count[p] + 1);
                    assert(last_child@[p] == Some(i));
                    if prev is None {
                        assert(first_child@[p] == Some(i));
                    } else {
                        assert(first_child@[p] == old_first[p]);
                    }
                } else {
                    assert(child_count@[p] == old_count[p]);
                    assert(first_child@[p] == old_first[p]);
                    assert(last_child@[p] == old_last[p]);
                }
            }
            // the sibling links
            assert forall|j: int| 0 <= j < i1 implies opt_int(#[trigger] next_sibling@[j])
                == next_sibling_upto(lv, j, i1) by {
                if j == i {
                    assert(siblings_upto(lv, par_i, i as int).len() + 1 == siblings_upto(
                        lv,
                        par_i,
                        i1,
                    ).len());
                } else {
                    let pj = parent_of(lv, j);
                    lemma_sibling_index(lv, pj, j, i as int);
                    let kj = siblings_upto(lv, pj, j).len() as int;
                    let sj = siblings_upto(lv, pj, i as int);
                    assert(siblings_upto(lv, pj, i1) == (if pj == par_i {
                        sj.push(i as int)
                    } else {
                        sj
                    }));
                    if pj == par_i {
                        if kj + 1 == sj.len() {
                            assert(sj.last() == j);
                            assert(prev == Some(j as usize));
                        } else {
                            if let Some(q) = prev {
                                assert(q as int == sj.last());
                                assert(sj[kj] == j);
                                lemma_siblings_len(lv, pj, i as int);
                                assert(q != j);
                            }
                        }
                    } else if let Some(q) = prev {
                        assert(q as int == sib.last());
                        lemma_siblings_len(lv, par_i, i as int);
                        assert(parent_of(lv, q as int) == par_i);
                        assert(q != j);
                    }
                }
            }
            assert forall|j: int| 0 <= j < i1 implies opt_int(#[trigger] prev_sibling@[j])
                == prev_sibling_of(lv, j) by {
                if j < i {
                    assert(prev_sibling@[j] == old_prev[j]);
                }
            }
            assert forall|j: int| 0 <= j < i1 implies opt_int(#[trigger] parent@[j]) == parent_of(
                lv,
                j,
            ) by {}
            assert forall|j: int| i1 <= j < n implies (#[trigger] next_sibling@[j]) is None by {
                if let Some(q) = prev {
                    lemma_siblings_len(lv, par_i, i as int);
                    assert(q < i);
                }
            }
        }
        let ghost st1 = stack@;
        stack.push(i);
        proof {
            let i1 = i as int + 1;
            assert forall|j: int| 0 <= j < i1 implies (stack@.contains(j as usize) <==> on_spine(
                lv,
                j,
                i1,
            )) by {
                if j == i {
                    assert(stack@[stack@.len() - 1] == i);
                } else {
                    if stack@.contains(j as usize) {
                        let q = choose|q: int| 0 <= q < stack@.len() && stack@[q] == j as usize;
                        assert(q < st1.len());
                        assert(st0[q] == j as usize);
                        assert(st0.contains(j as usize));
                        assert(on_spine(lv, j, i as int));
                        assert(m > 0);
                        if q < m - 1 {
                            assert(st0[q] < st0[m - 1]);
                        }
                        assert(eff_level(lv, j) <= eff_level(lv, t));
                        assert(eff_level(lv, t) < eff_level(lv, i as int));
                        assert forall|k: int| j < k < i1 implies eff_level(lv, k) > eff_level(lv, j) by {
                            if k < i {
                            }
                        }
                    }
                    if on_spine(lv, j, i1) {
                        assert(on_spine(lv, j, i as int));
                        assert(st0.contains(j as usize));
                        let q = choose|q: int| 0 <= q < st0.len() && st0[q] == j as usize;
                        assert(eff_level(lv, i as int) > eff_level(lv, j));
                        if q >= m {
                            assert(eff_level(lv, st0[q] as int) >= eff_level(lv, i as int));
                        }
                        assert(q < m);
                        assert(stack@[q] == j as usize);
                    }
                }
            }
            assert forall|q1: int, q2: int|
                0 <= q1 < q2 < stack@.len() implies #[trigger] stack@[q1] < #[trigger] stack@[q2]
                && eff_level(lv, stack@[q1] as int) < eff_level(lv, stack@[q2] as int) by {
                if q2 == stack@.len() - 1 {
                    if q1 < m - 1 {
                        assert(st0[q1] < st0[m - 1]);
                    }
                }
            }
        }
        i = i + 1;
    }
    assert forall|j: int| 0 <= j < n implies {
        &&& opt_int(#[trigger] parent@[j]) == parent_of(lv, j)
        &&& opt_int(prev_sibling@[j]) == prev_sibling_of(lv, j)
        &&& opt_int(next_sibling@[j]) == next_sibling_of(lv, j)
        &&& opt_int(first_child@[j]) == first_of(children_of(lv, j))
        &&& opt_int(last_child@[j]) == last_of(children_of(lv, j))
        &&& child_count@[j] == children_of(lv, j).len()
    } by {
        assert(opt_int(prev_sibling@[j]) == prev_sibling_of(lv, j));
        assert(opt_int(next_sibling@[j]) == next_sibling_upto(lv, j, n as int));
        assert(child_count@[j] == siblings_upto(lv, Some(j), n as int).len());
    }
    let plan = OutlinePlan {
        parent,
        first_child,
        last_child,
        prev_sibling,
        next_sibling,
        child_count,
        roots,
    };
    Some(plan)
}

proof fn lemma_parent_scan_shape(levels: Seq<usize>, i: int, j: int)
    requires
        0 <= i < levels.len(),
        -1 <= j < i,
    ensures
        match parent_scan(levels, i, j) {
            Some(p) => 0 <= p <= j && eff_level(levels, p) < eff_level(levels, i) && forall|k: int|
                p < k <= j ==> eff_level(levels, k) >= eff_level(levels, i),
            None => forall|k: int| 0 <= k <= j ==> eff_level(levels, k) >= eff_level(levels, i),
        },
    decreases j + 1,
{
    if j >= 0 && eff_level(levels, j) >= eff_level(levels, i) {
        lemma_parent_scan_shape(levels, i, j - 1);
    }
}

/// An entry's parent is the nearest earlier entry of a lower level: it comes
/// before the entry, its level is lower, and every entry between them has a
/// level at least the entry's own. An entry with no parent has no earlier
/// entry of a lower level.
pub proof fn lemma_parent_is_nearest_lower(levels: Seq<usize>, i: int)
    requires
        0 <= i < levels.len(),
    ensures
        match parent_of(levels, i) {
            Some(p) => 0 <= p < i && eff_level(levels, p) < eff_level(levels, i) && forall|k: int|
                p < k < i ==> eff_level(levels, k) >= eff_level(levels, i),
            None => forall|k: int| 0 <= k < i ==> eff_level(levels, k) >= eff_level(levels, i),
        },
{
    lemma_parent_scan_shape(levels, i, i - 1);
}

/// Entry `c` is among the children of `p` exactly when `p` is its parent,
/// and among the top entries exactly when it has no parent.
pub proof fn lemma_children_are_those_with_parent(levels: Seq<usize>, p: int, c: int)
    requires
        0 <= c < levels.len(),
    ensures
        children_of(levels, p).contains(c) <==> parent_of(levels, c) == Some(p),
        outline_roots(levels).contains(c) <==> parent_of(levels, c) is None,
{
    let n = levels.len() as int;
    lemma_siblings_len(levels, Some(p), n);
    lemma_siblings_len(levels, None, n);
    if parent_of(levels, c) == Some(p) {
        lemma_sibling_index(levels, Some(p), c, n);
        let k = siblings_upto(levels, Some(p), c).len() as int;
        assert(children_of(levels, p)[k] == c);
    }
    if parent_of(levels, c) is None {
        lemma_sibling_index(levels, None, c, n);
        let k = siblings_upto(levels, None, c).len() as int;
        assert(outline_roots(levels)[k] == c);
    }
}

/// The sibling links run both ways: `j` follows `i` exactly when `i`
/// precedes `j`.
pub proof fn lemma_sibling_links_inverse(levels: Seq<usize>, i: int, j: int)
    requires
        0 <= i < levels.len(),
        0 <= j < levels.len(),
    ensures
        next_sibling_of(levels, i) == Some(j) <==> prev_sibling_of(levels, j) == Some(i),
{
    let n = levels.len() as int;
    let pi = parent_of(levels, i);
    let pj = parent_of(levels, j);
    let si = siblings_upto(levels, pi, n);
    let ki = siblings_upto(levels, pi, i).len() as int;
    lemma_sibling_index(levels, pi, i, n);
    lemma_siblings_len(levels, pi, n);
    if next_sibling_of(levels, i) == Some(j) {
        assert(si[ki + 1] == j);
        assert(parent_of(levels, j) == pi);
        lemma_siblings_before(levels, pi, n, ki + 1);
        assert(siblings_upto(levels, pi, j) =~= si.take(ki + 1));
    }
    if prev_sibling_of(levels, j) == Some(i) {
        let sj = siblings_upto(levels, pj, j);
        lemma_siblings_len(levels, pj, j);
        assert(sj.last() == i);
        assert(pi == pj);
        lemma_sibling_index(levels, pj, j, n);
        let kj = sj.len() as int;
        lemma_siblings_prefix(levels, pj, j, n);
        assert(si[kj - 1] == i);
        assert(si[kj] == j);
        lemma_siblings_before(levels, pi, n, kj - 1);
        assert(siblings_upto(levels, pi, i) =~= si.take(kj - 1));
        assert(ki == kj - 1);
    }
}

} // verus!
