//! Globally valid assignments of constraints to verifiers, and the pruning of each pool to the
//! constraints that take part in one.

use vstd::prelude::*;
use crate::constraint::{Constraint, inter_of, meet_skip};
use crate::problem::total_size;

verus! {

/// No two constraints come from the same card.
pub open spec fn distinct_tags(cs: Seq<Constraint>) -> bool {
    forall|i: int, j: int| 0 <= i < j < cs.len() ==> cs[i].tag() != cs[j].tag()
}

/// No constraint is implied by the intersection of the others.
pub open spec fn non_redundant(cs: Seq<Constraint>) -> bool {
    forall|i: int| 0 <= i < cs.len() ==> !cs[i].contains(#[trigger] meet_skip(cs, i, cs.len() as int))
}

/// One constraint per verifier forms a globally valid assignment: distinct cards, exactly one
/// code accepted by all, and no constraint implied by the others.
pub open spec fn valid_assignment(cs: Seq<Constraint>) -> bool {
    distinct_tags(cs) && inter_of(cs).size() == 1 && non_redundant(cs)
}

/// The pools, seen as sequences.
pub open spec fn deep(v: Seq<Vec<Constraint>>) -> Seq<Seq<Constraint>> {
    v.map_values(|x: Vec<Constraint>| x@)
}

/// `t` selects one position in each pool.
pub open spec fn full_index(pools: Seq<Seq<Constraint>>, t: Seq<usize>) -> bool {
    t.len() == pools.len() && forall|k: int| 0 <= k < t.len() ==> t[k] < pools[k].len()
}

/// The constraints that `t` selects.
pub open spec fn pick(pools: Seq<Seq<Constraint>>, t: Seq<usize>) -> Seq<Constraint> {
    Seq::new(pools.len(), |k: int| pools[k][t[k] as int])
}

/// Some valid assignment selects position `j` of pool `v`.
pub open spec fn index_witness(pools: Seq<Seq<Constraint>>, v: int, j: int) -> bool {
    exists|t: Seq<usize>| full_index(pools, t) && t[v] == j && valid_assignment(#[trigger] pick(pools, t))
}

/// `cs` takes one constraint out of each pool.
pub open spec fn drawn_from(pools: Seq<Seq<Constraint>>, cs: Seq<Constraint>) -> bool {
    cs.len() == pools.len() && forall|v: int| 0 <= v < cs.len() ==> #[trigger] pools[v].contains(cs[v])
}

/// Constraint `x` of verifier `v` is part of some globally valid assignment.
pub open spec fn possible(pools: Seq<Seq<Constraint>>, v: int, x: Constraint) -> bool {
    exists|cs: Seq<Constraint>| drawn_from(pools, cs) && valid_assignment(cs) && #[trigger] cs[v] == x
}

/// Each pool, keeping only the constraints that are part of some globally valid assignment.
pub open spec fn pruned(pools: Seq<Seq<Constraint>>) -> Seq<Seq<Constraint>> {
    Seq::new(pools.len(), |v: int| pools[v].filter(|x: Constraint| possible(pools, v, x)))
}

/// Every globally valid assignment drawn from `old` is still drawn from `new`.
pub open spec fn keeps_valid(old: Seq<Seq<Constraint>>, new: Seq<Seq<Constraint>>) -> bool {
    forall|cs: Seq<Constraint>| drawn_from(old, cs) && valid_assignment(cs) ==> #[trigger] drawn_from(new, cs)
}

/// `n` passes of pruning.
pub open spec fn prune_iter(pools: Seq<Seq<Constraint>>, n: nat) -> Seq<Seq<Constraint>>
    decreases n,
{
    if n == 0 {
        pools
    } else {
        pruned(prune_iter(pools, (n - 1) as nat))
    }
}

/// Pruning repeated until it drops nothing more (each pass that drops something drops at least
/// one constraint, so as many passes as there are constraints suffice).
pub open spec fn settle(pools: Seq<Seq<Constraint>>) -> Seq<Seq<Constraint>> {
    prune_iter(pools, total_size(pools))
}

/// Once a pass of pruning drops nothing, further passes change nothing.
pub proof fn lemma_prune_iter_fixed(pools: Seq<Seq<Constraint>>, i: nat, m: nat)
    requires
        i <= m,
        pruned(prune_iter(pools, i)) == prune_iter(pools, i),
    ensures
        prune_iter(pools, m) == prune_iter(pools, i),
    decreases m,
{
    if m > i {
        lemma_prune_iter_fixed(pools, i, (m - 1) as nat);
    }
}

/// Every constraint of every pool is part of some globally valid assignment.
pub open spec fn settled(pools: Seq<Seq<Constraint>>) -> bool {
    forall|v: int, j: int| 0 <= v < pools.len() && 0 <= j < pools[v].len() ==> possible(pools, v, #[trigger] pools[v][j])
}

/// `marks` has one flag per constraint of `pools`.
pub open spec fn same_shape(marks: Seq<Vec<bool>>, pools: Seq<Vec<Constraint>>) -> bool {
    marks.len() == pools.len() && forall|v: int| 0 <= v < pools.len() ==> #[trigger] marks[v]@.len() == pools[v]@.len()
}

/// Whether `constraints` is a globally valid assignment.
pub fn valid_constraints(constraints: &Vec<Constraint>) -> (r: bool)
    ensures
        r == valid_assignment(constraints@),
{
    let n = constraints.len();
    let mut i: usize = 0;
    while i < n
        invariant
            n == constraints@.len(),
            i <= n,
            forall|a: int, b: int| 0 <= a < i && a < b < n ==> constraints@[a].tag() != constraints@[b].tag(),
        decreases n - i,
    {
        let mut j: usize = i + 1;
        while j < n
            invariant
                n == constraints@.len(),
                i < n,
                i < j <= n,
                forall|a: int, b: int| 0 <= a < i && a < b < n ==> constraints@[a].tag() != constraints@[b].tag(),
                forall|b: int| i < b < j ==> constraints@[i as int].tag() != constraints@[b].tag(),
            decreases n - j,
        {
            if constraints[i].group() == constraints[j].group() {
                return false;
            }
            j = j + 1;
        }
        i = i + 1;
    }
    if !Constraint::inter(constraints).has_unique_solution() {
        return false;
    }
    let mut i: usize = 0;
    while i < n
        invariant
            n == constraints@.len(),
            i <= n,
            forall|k: int| 0 <= k < i ==> !constraints@[k].contains(#[trigger] meet_skip(constraints@, k, n as int)),
        decreases n - i,
    {
        let others = Constraint::inter_skipping(constraints, i);
        if constraints[i].is_superset_of(&others) {
            return false;
        }
        i = i + 1;
    }
    true
}

/// Sets the flag of every constraint that takes part in a valid assignment extending the
/// partial selection `idx`.
fn mark_valid(pools: &Vec<Vec<Constraint>>, idx: &mut Vec<usize>, marks: &mut Vec<Vec<bool>>)
    requires
        old(idx)@.len() <= pools@.len(),
        forall|k: int| 0 <= k < old(idx)@.len() ==> old(idx)@[k] < pools@[k]@.len(),
        same_shape(old(marks)@, pools@),
    ensures
        final(idx)@ == old(idx)@,
        same_shape(final(marks)@, pools@),
        forall|v: int, j: int|
            0 <= v < pools@.len() && 0 <= j < pools@[v]@.len() && old(marks)@[v]@[j] ==> #[trigger] final(marks)@[v]@[j],
        forall|v: int, j: int|
            0 <= v < pools@.len() && 0 <= j < pools@[v]@.len() && #[trigger] final(marks)@[v]@[j] ==> old(marks)@[v]@[j]
                || index_witness(deep(pools@), v, j),
        forall|t: Seq<usize>|
            full_index(deep(pools@), t) && t.subrange(0, old(idx)@.len() as int) == old(idx)@ && valid_assignment(
                #[trigger] pick(deep(pools@), t),
            ) ==> forall|v: int| 0 <= v < t.len() ==> final(marks)@[v]@[t[v] as int],
    decreases pools@.len() - old(idx)@.len(),
{
    let ghost ps = deep(pools@);
    let k = idx.len();
    if k == pools.len() {
        let mut chosen: Vec<Constraint> = Vec::new();
        let mut v: usize = 0;
        while v < k
            invariant
                k == idx@.len() == pools@.len(),
                v <= k,
                forall|w: int| 0 <= w < k ==> idx@[w] < pools@[w]@.len(),
                chosen@ == pick(ps, idx@).subrange(0, v as int),
                ps == deep(pools@),
            decreases k - v,
        {
            chosen.push(pools[v][idx[v]]);
            v = v + 1;
            assert(chosen@ =~= pick(ps, idx@).subrange(0, v as int));
        }
        assert(chosen@ =~= pick(ps, idx@));
        if valid_constraints(&chosen) {
            let mut v: usize = 0;
            while v < k
                invariant
                    k == idx@.len() == pools@.len(),
                    v <= k,
                    forall|w: int| 0 <= w < k ==> idx@[w] < pools@[w]@.len(),
                    same_shape(marks@, pools@),
                    ps == deep(pools@),
                    full_index(ps, idx@),
                    valid_assignment(pick(ps, idx@)),
                    forall|w: int| 0 <= w < v ==> marks@[w]@[idx@[w] as int],
                    forall|w: int, j: int|
                        0 <= w < pools@.len() && 0 <= j < pools@[w]@.len() && old(marks)@[w]@[j] ==> #[trigger] marks@[w]@[j],
                    forall|w: int, j: int|
                        0 <= w < pools@.len() && 0 <= j < pools@[w]@.len() && #[trigger] marks@[w]@[j] ==> old(marks)@[w]@[j]
                            || index_witness(ps, w, j),
                decreases k - v,
            {
                let j = idx[v];
                proof {
                    assert(index_witness(ps, v as int, j as int)) by {
                        assert(full_index(ps, idx@) && idx@[v as int] == j && valid_assignment(pick(ps, idx@)));
                    }
                }
                marks[v][j] = true;
                v = v + 1;
            }
        }
        proof {
            assert forall|t: Seq<usize>|
                full_index(ps, t) && t.subrange(0, k as int) == idx@ && valid_assignment(
                    #[trigger] pick(ps, t),
                ) implies forall|w: int| 0 <= w < t.len() ==> marks@[w]@[t[w] as int] by {
                assert(t =~= idx@);
            }
        }
    } else {
        let n = pools[k].len();
        let mut i: usize = 0;
        while i < n
            invariant
                k == idx@.len() == old(idx)@.len(),
                k < pools@.len(),
                n == pools@[k as int]@.len(),
                i <= n,
                idx@ == old(idx)@,
                forall|w: int| 0 <= w < k ==> idx@[w] < pools@[w]@.len(),
                same_shape(marks@, pools@),
                ps == deep(pools@),
                forall|w: int, j: int|
                    0 <= w < pools@.len() && 0 <= j < pools@[w]@.len() && old(marks)@[w]@[j] ==> #[trigger] marks@[w]@[j],
                forall|w: int, j: int|
                    0 <= w < pools@.len() && 0 <= j < pools@[w]@.len() && #[trigger] marks@[w]@[j] ==> old(marks)@[w]@[j]
                        || index_witness(ps, w, j),
                forall|t: Seq<usize>|
                    full_index(ps, t) && t.subrange(0, k as int) == idx@ && t[k as int] < i && valid_assignment(
                        #[trigger] pick(ps, t),
                    ) ==> forall|w: int| 0 <= w < t.len() ==> marks@[w]@[t[w] as int],
            decreases n - i,
        {
            let ghost before = marks@;
            idx.push(i);
            mark_valid(pools, idx, marks);
            idx.pop();
            proof {
                assert(idx@ =~= old(idx)@);
                assert forall|t: Seq<usize>|
                    full_index(ps, t) && t.subrange(0, k as int) == idx@ && t[k as int] < i + 1 && valid_assignment(
                        #[trigger] pick(ps, t),
                    ) implies forall|w: int| 0 <= w < t.len() ==> marks@[w]@[t[w] as int] by {
                    if t[k as int] == i {
                        assert(t.subrange(0, k + 1) =~= idx@.push(i));
                    } else {
                        assert forall|w: int| 0 <= w < t.len() implies marks@[w]@[t[w] as int] by {
                            assert(before[w]@[t[w] as int]);
                        }
                    }
                }
            }
            i = i + 1;
        }
        proof {
            assert forall|t: Seq<usize>|
                full_index(ps, t) && t.subrange(0, k as int) == old(idx)@ && valid_assignment(
                    #[trigger] pick(ps, t),
                ) implies forall|w: int| 0 <= w < t.len() ==> marks@[w]@[t[w] as int] by {
                assert(t[k as int] < n);
            }
        }
    }
}


/// Every pool of `new` keeps only constraints of the same pool of `old`, and is no longer.
pub open spec fn shrinks(old: Seq<Seq<Constraint>>, new: Seq<Seq<Constraint>>) -> bool {
    &&& new.len() == old.len()
    &&& forall|v: int| 0 <= v < old.len() ==> #[trigger] new[v].len() <= old[v].len()
    &&& forall|v: int, x: Constraint| 0 <= v < old.len() && #[trigger] new[v].contains(x) ==> old[v].contains(x)
}

pub(crate) proof fn lemma_filter_full(s: Seq<Constraint>, p: spec_fn(Constraint) -> bool)
    ensures
        s.filter(p).len() <= s.len(),
        forall|x: Constraint| #[trigger] s.filter(p).contains(x) ==> s.contains(x),
        s.filter(p).len() == s.len() ==> forall|j: int| 0 <= j < s.len() ==> p(#[trigger] s[j]),
    decreases s.len(),
{
    reveal(Seq::filter);
    if s.len() > 0 {
        lemma_filter_full(s.drop_last(), p);
        assert forall|x: Constraint| #[trigger] s.filter(p).contains(x) implies s.contains(x) by {
            s.lemma_filter_contains_rev(p, x);
        }
        if s.filter(p).len() == s.len() {
            assert forall|j: int| 0 <= j < s.len() implies p(#[trigger] s[j]) by {
                if j < s.len() - 1 {
                    assert(s.drop_last()[j] == s[j]);
                }
            }
        }
    }
}

pub(crate) proof fn lemma_total_shrinks(old: Seq<Seq<Constraint>>, new: Seq<Seq<Constraint>>)
    requires
        new.len() == old.len(),
        forall|v: int| 0 <= v < old.len() ==> #[trigger] new[v].len() <= old[v].len(),
    ensures
        total_size(new) <= total_size(old),
        total_size(new) == total_size(old) ==> forall|v: int| 0 <= v < old.len() ==> #[trigger] new[v].len() == old[v].len(),
    decreases old.len(),
{
    if old.len() > 0 {
        let (o, n) = (old.drop_last(), new.drop_last());
        assert forall|v: int| 0 <= v < o.len() implies #[trigger] n[v].len() <= o[v].len() by {
            assert(n[v] == new[v] && o[v] == old[v]);
        }
        lemma_total_shrinks(o, n);
        if total_size(new) == total_size(old) {
            assert forall|v: int| 0 <= v < old.len() implies #[trigger] new[v].len() == old[v].len() by {
                if v < old.len() - 1 {
                    assert(n[v] == new[v] && o[v] == old[v]);
                }
            }
        }
    }
}

pub(crate) proof fn lemma_total_bound(pools: Seq<Seq<Constraint>>, m: nat)
    requires
        forall|v: int| 0 <= v < pools.len() ==> #[trigger] pools[v].len() <= m,
    ensures
        total_size(pools) <= pools.len() * m,
    decreases pools.len(),
{
    if pools.len() > 0 {
        let p = pools.drop_last();
        assert forall|v: int| 0 <= v < p.len() implies #[trigger] p[v].len() <= m by {
            assert(p[v] == pools[v]);
        }
        lemma_total_bound(p, m);
        assert(total_size(pools) <= pools.len() * m) by (nonlinear_arith)
            requires
                total_size(pools) == total_size(p) + pools.last().len(),
                total_size(p) <= p.len() * m,
                pools.last().len() <= m,
                p.len() + 1 == pools.len(),
        ;
    }
}

/// A possible constraint sits at a position that some valid index tuple selects.
proof fn lemma_possible_index(ps: Seq<Seq<Constraint>>, v: int, j: int) -> (t: Seq<usize>)
    requires
        0 <= v < ps.len(),
        0 <= j < ps[v].len(),
        forall|k: int| 0 <= k < ps.len() ==> #[trigger] ps[k].len() <= usize::MAX,
        possible(ps, v, ps[v][j]),
    ensures
        full_index(ps, t),
        t[v] == j,
        valid_assignment(pick(ps, t)),
{
    let cs = choose|cs: Seq<Constraint>| drawn_from(ps, cs) && valid_assignment(cs) && #[trigger] cs[v] == ps[v][j];
    let t = Seq::new(
        ps.len(),
        |k: int|
            if k == v {
                j as usize
            } else {
                (choose|i: int| 0 <= i < ps[k].len() && ps[k][i] == cs[k]) as usize
            },
    );
    assert forall|k: int| 0 <= k < ps.len() implies t[k] < ps[k].len() && ps[k][t[k] as int] == cs[k] by {
        if k != v {
            assert(ps[k].contains(cs[k]));
        }
    }
    assert(pick(ps, t) =~= cs);
    t
}

/// Each pool with only the constraints that some valid assignment uses.
pub(crate) fn prune_pools(pools: &Vec<Vec<Constraint>>) -> (r: Vec<Vec<Constraint>>)
    ensures
        deep(r@) == pruned(deep(pools@)),
{
    let ghost ps = deep(pools@);
    let mut marks: Vec<Vec<bool>> = Vec::new();
    let mut v: usize = 0;
    while v < pools.len()
        invariant
            v <= pools@.len(),
            marks@.len() == v,
            forall|w: int| 0 <= w < v ==> #[trigger] marks@[w]@.len() == pools@[w]@.len(),
            forall|w: int, j: int| 0 <= w < v && 0 <= j < pools@[w]@.len() ==> !(#[trigger] marks@[w]@[j]),
        decreases pools@.len() - v,
    {
        let mut row: Vec<bool> = Vec::new();
        let mut j: usize = 0;
        while j < pools[v].len()
            invariant
                v < pools@.len(),
                j <= pools@[v as int]@.len(),
                row@.len() == j,
                forall|i: int| 0 <= i < j ==> !row@[i],
            decreases pools@[v as int]@.len() - j,
        {
            row.push(false);
            j = j + 1;
        }
        marks.push(row);
        v = v + 1;
    }
    let mut idx: Vec<usize> = Vec::new();
    let ghost empty = marks@;
    mark_valid(pools, &mut idx, &mut marks);
    proof {
        assert forall|w: int| 0 <= w < ps.len() implies #[trigger] ps[w].len() <= usize::MAX by {
            assert(ps[w] == pools@[w]@);
            assert(pools@[w].len() == pools@[w]@.len());
        }
    }
    let mut r: Vec<Vec<Constraint>> = Vec::new();
    let mut v: usize = 0;
    while v < pools.len()
        invariant
            ps == deep(pools@),
            v <= pools@.len(),
            r@.len() == v,
            same_shape(marks@, pools@),
            forall|w: int| 0 <= w < ps.len() ==> #[trigger] ps[w].len() <= usize::MAX,
            forall|w: int, j: int|
                0 <= w < pools@.len() && 0 <= j < pools@[w]@.len() ==> !(#[trigger] empty[w]@[j]),
            forall|w: int, j: int|
                0 <= w < pools@.len() && 0 <= j < pools@[w]@.len() && #[trigger] marks@[w]@[j] ==> empty[w]@[j]
                    || index_witness(ps, w, j),
            forall|t: Seq<usize>|
                full_index(ps, t) && t.subrange(0, 0) == Seq::<usize>::empty() && valid_assignment(
                    #[trigger] pick(ps, t),
                ) ==> forall|w: int| 0 <= w < t.len() ==> marks@[w]@[t[w] as int],
            forall|w: int| 0 <= w < v ==> #[trigger] r@[w]@ == pruned(ps)[w],
        decreases pools@.len() - v,
    {
        let ghost pred = |x: Constraint| possible(ps, v as int, x);
        let mut out: Vec<Constraint> = Vec::new();
        let mut j: usize = 0;
        while j < pools[v].len()
            invariant
                ps == deep(pools@),
                v < pools@.len(),
                j <= pools@[v as int]@.len(),
                same_shape(marks@, pools@),
                forall|w: int| 0 <= w < ps.len() ==> #[trigger] ps[w].len() <= usize::MAX,
                forall|w: int, i: int|
                    0 <= w < pools@.len() && 0 <= i < pools@[w]@.len() ==> !(#[trigger] empty[w]@[i]),
                forall|w: int, i: int|
                    0 <= w < pools@.len() && 0 <= i < pools@[w]@.len() && #[trigger] marks@[w]@[i] ==> empty[w]@[i]
                        || index_witness(ps, w, i),
                forall|t: Seq<usize>|
                    full_index(ps, t) && t.subrange(0, 0) == Seq::<usize>::empty() && valid_assignment(
                        #[trigger] pick(ps, t),
                    ) ==> forall|w: int| 0 <= w < t.len() ==> marks@[w]@[t[w] as int],
                pred == (|x: Constraint| possible(ps, v as int, x)),
                out@ == ps[v as int].subrange(0, j as int).filter(pred),
            decreases pools@[v as int]@.len() - j,
        {
            proof {
                let x = ps[v as int][j as int];
                assert(ps[v as int] == pools@[v as int]@);
                if marks@[v as int]@[j as int] {
                    let t = choose|t: Seq<usize>|
                        full_index(ps, t) && t[v as int] == j && valid_assignment(#[trigger] pick(ps, t));
                    let cs = pick(ps, t);
                    assert forall|w: int| 0 <= w < cs.len() implies #[trigger] ps[w].contains(cs[w]) by {
                        assert(ps[w][t[w] as int] == cs[w]);
                    }
                    assert(drawn_from(ps, cs) && valid_assignment(cs) && cs[v as int] == x);
                } else if possible(ps, v as int, x) {
                    let t = lemma_possible_index(ps, v as int, j as int);
                    assert(t.subrange(0, 0) =~= Seq::<usize>::empty());
                }
                assert(marks@[v as int]@[j as int] == pred(x));
                assert(ps[v as int].subrange(0, j + 1).drop_last() =~= ps[v as int].subrange(0, j as int));
                assert(ps[v as int].subrange(0, j + 1).last() == x);
            }
            let ghost before = out@;
            if marks[v][j] {
                out.push(pools[v][j]);
            }
            proof {
                let x = ps[v as int][j as int];
                let sub = ps[v as int].subrange(0, j + 1);
                reveal(Seq::filter);
                assert(sub.filter(pred) == (if pred(sub.last()) { sub.drop_last().filter(pred).push(sub.last()) } else { sub.drop_last().filter(pred) }));
                assert(out@ == (if pred(x) { before.push(x) } else { before }));
            }
            j = j + 1;
        }
        proof {
            assert(ps[v as int].subrange(0, j as int) =~= ps[v as int]);
        }
        r.push(out);
        v = v + 1;
    }
    assert(deep(r@) =~= pruned(ps));
    r
}


pub(crate) proof fn lemma_pruned_shrinks(ps: Seq<Seq<Constraint>>)
    ensures
        shrinks(ps, pruned(ps)),
{
    assert forall|v: int| 0 <= v < ps.len() implies #[trigger] pruned(ps)[v].len() <= ps[v].len() by {
        lemma_filter_full(ps[v], |x: Constraint| possible(ps, v, x));
    }
    assert forall|v: int, x: Constraint| 0 <= v < ps.len() && #[trigger] pruned(ps)[v].contains(x) implies ps[v].contains(x) by {
        lemma_filter_full(ps[v], |x: Constraint| possible(ps, v, x));
    }
}

pub(crate) proof fn lemma_shrinks_trans(a: Seq<Seq<Constraint>>, b: Seq<Seq<Constraint>>, c: Seq<Seq<Constraint>>)
    requires
        shrinks(a, b),
        shrinks(b, c),
    ensures
        shrinks(a, c),
{
    assert forall|v: int| 0 <= v < a.len() implies #[trigger] c[v].len() <= a[v].len() by {
        assert(c[v].len() <= b[v].len());
    }
    assert forall|v: int, x: Constraint| 0 <= v < a.len() && #[trigger] c[v].contains(x) implies a[v].contains(x) by {
        assert(b[v].contains(x));
    }
}

pub(crate) proof fn lemma_pruned_keeps(ps: Seq<Seq<Constraint>>)
    ensures
        keeps_valid(ps, pruned(ps)),
{
    assert forall|cs: Seq<Constraint>| drawn_from(ps, cs) && valid_assignment(cs) implies #[trigger] drawn_from(
        pruned(ps),
        cs,
    ) by {
        assert forall|v: int| 0 <= v < cs.len() implies #[trigger] pruned(ps)[v].contains(cs[v]) by {
            assert(ps[v].contains(cs[v]));
            let i = choose|i: int| 0 <= i < ps[v].len() && ps[v][i] == cs[v];
            assert(possible(ps, v, cs[v]));
            ps[v].lemma_filter_contains(|x: Constraint| possible(ps, v, x), i);
        }
    }
}

pub(crate) proof fn lemma_keeps_trans(a: Seq<Seq<Constraint>>, b: Seq<Seq<Constraint>>, c: Seq<Seq<Constraint>>)
    requires
        keeps_valid(a, b),
        keeps_valid(b, c),
    ensures
        keeps_valid(a, c),
{
    assert forall|cs: Seq<Constraint>| drawn_from(a, cs) && valid_assignment(cs) implies #[trigger] drawn_from(c, cs) by {
        assert(drawn_from(b, cs));
    }
}

/// When pruning drops nothing, every constraint is part of a globally valid assignment.
pub(crate) proof fn lemma_fixpoint_settled(ps: Seq<Seq<Constraint>>)
    requires
        forall|v: int| 0 <= v < ps.len() ==> #[trigger] pruned(ps)[v].len() == ps[v].len(),
    ensures
        settled(pruned(ps)),
        pruned(ps) == ps,
{
    assert forall|v: int| 0 <= v < ps.len() implies #[trigger] pruned(ps)[v] == ps[v] by {
        let p = |x: Constraint| possible(ps, v, x);
        lemma_filter_full(ps[v], p);
        assert(pruned(ps)[v].len() == ps[v].len());
        lemma_filter_all(ps[v], p);
    }
    assert(pruned(ps) =~= ps);
    assert forall|v: int, j: int| 0 <= v < ps.len() && 0 <= j < ps[v].len() implies possible(ps, v, #[trigger] ps[v][j]) by {
        let p = |x: Constraint| possible(ps, v, x);
        lemma_filter_full(ps[v], p);
        assert(p(ps[v][j]));
    }
}

proof fn lemma_filter_all(s: Seq<Constraint>, p: spec_fn(Constraint) -> bool)
    requires
        forall|j: int| 0 <= j < s.len() ==> p(#[trigger] s[j]),
    ensures
        s.filter(p) == s,
    decreases s.len(),
{
    reveal(Seq::filter);
    if s.len() > 0 {
        assert forall|j: int| 0 <= j < s.drop_last().len() implies p(#[trigger] s.drop_last()[j]) by {
            assert(s.drop_last()[j] == s[j]);
        }
        lemma_filter_all(s.drop_last(), p);
        assert(s.drop_last().push(s.last()) =~= s);
    }
}

} // verus!
