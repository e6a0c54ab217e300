use vstd::prelude::*;
use crate::code::{Code, code_at, lemma_idx_code_at};
use crate::constraint::Constraint;
use crate::assignment::deep;

verus! {

/// `a < b` for fractions (numerator, denominator) with positive denominators.
pub open spec fn rat_lt(a: (int, int), b: (int, int)) -> bool {
    a.0 * b.1 < b.0 * a.1
}

/// `a + b` over a common denominator, not reduced.
pub open spec fn rat_add(a: (int, int), b: (int, int)) -> (int, int) {
    (a.0 * b.1 + b.0 * a.1, a.1 * b.1)
}

/// The larger of two fractions; the first on a tie.
pub open spec fn rat_max(a: (int, int), b: (int, int)) -> (int, int) {
    if rat_lt(a, b) {
        b
    } else {
        a
    }
}

/// A fraction stored in 32-bit integers, seen as a pair of integers.
pub open spec fn frac(a: (i32, i32)) -> (int, int) {
    (a.0 as int, a.1 as int)
}

/// Number of constraints of `pool` that accept `c`.
pub open spec fn n_accept(pool: Seq<Constraint>, c: Code) -> nat
    decreases pool.len(),
{
    if pool.len() == 0 {
        0
    } else {
        n_accept(pool.drop_last(), c) + if pool.last().holds(c) { 1nat } else { 0 }
    }
}

/// Expected eliminations of asking `c` to a verifier with this pool: `2·n0·n1 / (n0 + n1)`, where
/// `n1` constraints accept `c` and `n0` reject it; 0 for an empty pool.
pub open spec fn elims(pool: Seq<Constraint>, c: Code) -> (int, int) {
    let n1 = n_accept(pool, c) as int;
    let n0 = pool.len() - n1;
    if pool.len() == 0 {
        (0, 1)
    } else {
        (2 * n0 * n1, pool.len() as int)
    }
}

/// The largest total of at most `k` entries of `s` (for non-negative entries, the sum of the
/// `k` largest), built over the entries in order.
pub open spec fn top_total(s: Seq<(int, int)>, k: int) -> (int, int)
    decreases s.len(),
{
    if s.len() == 0 || k <= 0 {
        (0, 1)
    } else {
        rat_max(top_total(s.drop_last(), k), rat_add(top_total(s.drop_last(), k - 1), s.last()))
    }
}

/// The entries of `s` at positions `idx`, added in order.
pub open spec fn sel_sum(s: Seq<(int, int)>, idx: Seq<int>) -> (int, int)
    decreases idx.len(),
{
    if idx.len() == 0 {
        (0, 1)
    } else {
        rat_add(sel_sum(s, idx.drop_last()), s[idx.last()])
    }
}

/// `idx` picks at most `k` distinct positions below `n`, in increasing order.
pub open spec fn selection(idx: Seq<int>, n: int, k: int) -> bool {
    &&& idx.len() <= k
    &&& forall|a: int| 0 <= a < idx.len() ==> 0 <= #[trigger] idx[a] < n
    &&& forall|a: int, b: int| 0 <= a < b < idx.len() ==> idx[a] < idx[b]
}

/// The expected eliminations of `c` for each pool.
pub open spec fn elim_seq(pools: Seq<Seq<Constraint>>, c: Code) -> Seq<(int, int)> {
    Seq::new(pools.len(), |v: int| elims(pools[v], c))
}

/// The score of a question: the sum of the three largest expected eliminations.
pub open spec fn score(pools: Seq<Seq<Constraint>>, c: Code) -> (int, int) {
    top_total(elim_seq(pools, c), 3)
}

/// Relies on the ordering of num's `Rational32` (`Ratio<i32>`): with positive denominators it
/// compares the two fractions exactly, avoiding overflow.
#[verifier::external_body]
fn ratio_lt(a: (i32, i32), b: (i32, i32)) -> (r: bool)
    requires
        a.1 > 0,
        b.1 > 0,
    ensures
        r == rat_lt(frac(a), frac(b)),
{
    num::Rational32::new_raw(a.0, a.1) < num::Rational32::new_raw(b.0, b.1)
}

/// Sum of two small fractions.
fn rat_sum(a: (i32, i32), b: (i32, i32)) -> (r: (i32, i32))
    requires
        0 <= a.0,
        0 < a.1,
        0 <= b.0,
        0 < b.1,
        a.0 * b.1 + b.0 * a.1 <= i32::MAX,
        a.1 * b.1 <= i32::MAX,
    ensures
        frac(r) == rat_add(frac(a), frac(b)),
{
    let n: i64 = (a.0 as i64) * (b.1 as i64) + (b.0 as i64) * (a.1 as i64);
    let d: i64 = (a.1 as i64) * (b.1 as i64);
    (n as i32, d as i32)
}

/// Expected eliminations of asking `code` to a verifier with this pool.
pub fn expected_eliminations(verifier: &Vec<Constraint>, code: Code) -> (r: (i32, i32))
    requires
        verifier@.len() <= 65535,
        code.wf(),
    ensures
        frac(r) == elims(verifier@, code),
        0 <= r.0,
        1 <= r.1,
        verifier@.len() <= 128 ==> r.0 <= 64 * r.1 && r.1 <= 128,
{
    let mut n1: i32 = 0;
    let mut i: usize = 0;
    while i < verifier.len()
        invariant
            i <= verifier@.len() <= 65535,
            code.wf(),
            n1 as int == n_accept(verifier@.subrange(0, i as int), code),
            n1 <= i,
        decreases verifier@.len() - i,
    {
        proof {
            assert(verifier@.subrange(0, i + 1).drop_last() =~= verifier@.subrange(0, i as int));
        }
        if verifier[i].accepts(code) {
            n1 = n1 + 1;
        }
        i = i + 1;
    }
    assert(verifier@.subrange(0, i as int) =~= verifier@);
    let n = verifier.len() as i32;
    if n == 0 {
        (0, 1)
    } else {
        let n0 = n - n1;
        proof {
            lemma_elims_bound(n0 as int, n1 as int);
        }
        let e: i64 = 2 * (n0 as i64) * (n1 as i64);
        (e as i32, n)
    }
}

proof fn lemma_elims_bound(n0: int, n1: int)
    requires
        0 <= n0,
        0 <= n1,
        0 < n0 + n1 <= 65535,
    ensures
        0 <= 2 * n0 * n1 <= 2147418112,
        n0 + n1 <= 128 ==> 2 * n0 * n1 <= 64 * (n0 + n1),
{
    let p = n0 * n1;
    let t = n0 + n1;
    let sq = t * t;
    assert(2 * n0 * n1 == 2 * p) by (nonlinear_arith)
        requires
            p == n0 * n1,
    ;
    assert(0 <= p && 4 * p <= sq) by (nonlinear_arith)
        requires
            0 <= n0,
            0 <= n1,
            p == n0 * n1,
            t == n0 + n1,
            sq == t * t,
    {
        assert((n0 - n1) * (n0 - n1) >= 0);
    }
    assert(sq <= 65535 * t) by (nonlinear_arith)
        requires
            0 < t <= 65535,
            sq == t * t,
    ;
    if t <= 128 {
        assert(sq <= 128 * t) by (nonlinear_arith)
            requires
                0 < t <= 128,
                sq == t * t,
        ;
    }
}

/// Adding one more entry keeps a running top total within its bounds.
proof fn lemma_add_bound(a: (int, int), x: (int, int), j: int, dmax: int)
    requires
        1 <= j <= 3,
        0 <= a.0 <= 64 * (j - 1) * a.1,
        1 <= a.1 <= dmax,
        0 <= x.0 <= 64 * x.1,
        1 <= x.1 <= 128,
        dmax == if j == 1 { 1int } else if j == 2 { 128int } else { 16384int },
    ensures
        0 <= rat_add(a, x).0 <= 64 * j * rat_add(a, x).1,
        1 <= rat_add(a, x).1 <= 128 * dmax,
        rat_add(a, x).0 <= 64 * 3 * 2097152,
{
    assert(0 <= a.0 * x.1 + x.0 * a.1 <= 64 * j * (a.1 * x.1) && 1 <= a.1 * x.1 <= 128 * dmax) by (nonlinear_arith)
        requires
            1 <= j <= 3,
            0 <= a.0 <= 64 * (j - 1) * a.1,
            1 <= a.1 <= dmax,
            0 <= x.0 <= 64 * x.1,
            1 <= x.1 <= 128,
    ;
    assert(64 * j * (a.1 * x.1) <= 64 * 3 * 2097152) by (nonlinear_arith)
        requires
            1 <= j <= 3,
            1 <= a.1 * x.1 <= 128 * dmax,
            dmax <= 16384,
    ;
}

/// `a ≤ b` and `b ≤ c` (or `b < c`) give `a ≤ c` (or `a < c`), for positive denominators.
pub proof fn lemma_rat_trans(a: (int, int), b: (int, int), c: (int, int))
    requires
        a.1 > 0,
        b.1 > 0,
        c.1 > 0,
        !rat_lt(b, a),
    ensures
        !rat_lt(c, b) ==> !rat_lt(c, a),
        rat_lt(b, c) ==> rat_lt(a, c),
{
    assert(a.0 * b.1 * c.1 <= b.0 * a.1 * c.1) by (nonlinear_arith)
        requires
            a.0 * b.1 <= b.0 * a.1,
            c.1 > 0,
    ;
    if !rat_lt(c, b) {
        assert(b.0 * c.1 * a.1 <= c.0 * b.1 * a.1) by (nonlinear_arith)
            requires
                b.0 * c.1 <= c.0 * b.1,
                a.1 > 0,
        ;
        assert(a.0 * c.1 <= c.0 * a.1) by (nonlinear_arith)
            requires
                a.0 * b.1 * c.1 <= b.0 * a.1 * c.1,
                b.0 * c.1 * a.1 <= c.0 * b.1 * a.1,
                b.1 > 0,
        ;
    }
    if rat_lt(b, c) {
        assert(b.0 * c.1 * a.1 < c.0 * b.1 * a.1) by (nonlinear_arith)
            requires
                b.0 * c.1 < c.0 * b.1,
                a.1 > 0,
        ;
        assert(a.0 * c.1 < c.0 * a.1) by (nonlinear_arith)
            requires
                a.0 * b.1 * c.1 <= b.0 * a.1 * c.1,
                b.0 * c.1 * a.1 < c.0 * b.1 * a.1,
                b.1 > 0,
        ;
    }
}

/// Top totals of entries with positive denominators have positive denominators.
pub proof fn lemma_top_total_pos(s: Seq<(int, int)>, k: int)
    requires
        forall|i: int| 0 <= i < s.len() ==> #[trigger] s[i].1 > 0,
    ensures
        top_total(s, k).1 > 0,
    decreases s.len(),
{
    if s.len() > 0 && k > 0 {
        let p = s.drop_last();
        assert forall|i: int| 0 <= i < p.len() implies #[trigger] p[i].1 > 0 by {
            assert(p[i] == s[i]);
        }
        lemma_top_total_pos(p, k);
        lemma_top_total_pos(p, k - 1);
        let a = top_total(p, k - 1);
        assert(a.1 * s.last().1 > 0) by (nonlinear_arith)
            requires
                a.1 > 0,
                s.last().1 > 0,
        ;
    }
}

proof fn lemma_add_mono(a: (int, int), b: (int, int), x: (int, int))
    requires
        a.1 > 0,
        b.1 > 0,
        x.1 > 0,
        !rat_lt(b, a),
    ensures
        !rat_lt(rat_add(b, x), rat_add(a, x)),
{
    let xx = x.1 * x.1;
    let m = x.0 * a.1 * b.1 * x.1;
    assert((a.0 * x.1 + x.0 * a.1) * (b.1 * x.1) == (a.0 * b.1) * xx + m) by (nonlinear_arith)
        requires
            xx == x.1 * x.1,
            m == x.0 * a.1 * b.1 * x.1,
    ;
    let t1 = b.0 * x.1;
    let t2 = x.0 * b.1;
    let u = a.1 * x.1;
    assert((t1 + t2) * u == t1 * u + t2 * u) by (nonlinear_arith);
    assert(t1 * u == (b.0 * a.1) * xx) by (nonlinear_arith)
        requires
            t1 == b.0 * x.1,
            u == a.1 * x.1,
            xx == x.1 * x.1,
    ;
    assert(t2 * u == m) by (nonlinear_arith)
        requires
            t2 == x.0 * b.1,
            u == a.1 * x.1,
            m == x.0 * a.1 * b.1 * x.1,
    ;
    assert(xx > 0) by (nonlinear_arith)
        requires
            xx == x.1 * x.1,
            x.1 > 0,
    ;
    let p = a.0 * b.1;
    let q = b.0 * a.1;
    assert(p * xx <= q * xx) by (nonlinear_arith)
        requires
            p <= q,
            xx > 0,
    ;
}

proof fn lemma_sel_sum_pos(s: Seq<(int, int)>, idx: Seq<int>)
    requires
        forall|i: int| 0 <= i < s.len() ==> #[trigger] s[i].1 > 0,
        forall|a: int| 0 <= a < idx.len() ==> 0 <= #[trigger] idx[a] < s.len(),
    ensures
        sel_sum(s, idx).1 > 0,
    decreases idx.len(),
{
    if idx.len() > 0 {
        let p = idx.drop_last();
        assert forall|a: int| 0 <= a < p.len() implies 0 <= #[trigger] p[a] < s.len() by {
            assert(p[a] == idx[a]);
        }
        lemma_sel_sum_pos(s, p);
        let x = s[idx.last()];
        let y = sel_sum(s, p);
        assert(y.1 * x.1 > 0) by (nonlinear_arith)
            requires
                y.1 > 0,
                x.1 > 0,
        ;
    }
}

proof fn lemma_sel_sum_prefix(s: Seq<(int, int)>, idx: Seq<int>)
    requires
        s.len() > 0,
        forall|a: int| 0 <= a < idx.len() ==> 0 <= #[trigger] idx[a] < s.len() - 1,
    ensures
        sel_sum(s, idx) == sel_sum(s.drop_last(), idx),
    decreases idx.len(),
{
    if idx.len() > 0 {
        let p = idx.drop_last();
        assert forall|a: int| 0 <= a < p.len() implies 0 <= #[trigger] p[a] < s.len() - 1 by {
            assert(p[a] == idx[a]);
        }
        lemma_sel_sum_prefix(s, p);
    }
}

/// The top total of at most `k` entries is the total of some increasing selection of at most `k`
/// entries, and no such selection totals more: with non-negative entries, it is the sum of the
/// `k` largest.
pub proof fn lemma_top_total_is_max(s: Seq<(int, int)>, k: int)
    requires
        k >= 0,
        forall|i: int| 0 <= i < s.len() ==> #[trigger] s[i].1 > 0,
    ensures
        exists|idx: Seq<int>| selection(idx, s.len() as int, k) && top_total(s, k) == #[trigger] sel_sum(s, idx),
        forall|idx: Seq<int>| selection(idx, s.len() as int, k) ==> !rat_lt(top_total(s, k), #[trigger] sel_sum(s, idx)),
    decreases s.len(),
{
    let n = s.len() as int;
    if n == 0 || k == 0 {
        let e = Seq::<int>::empty();
        assert(selection(e, n, k) && top_total(s, k) == sel_sum(s, e));
        assert forall|idx: Seq<int>| selection(idx, n, k) implies !rat_lt(top_total(s, k), #[trigger] sel_sum(s, idx)) by {
            if idx.len() > 0 {
                assert(0 <= idx[0] < n);
            }
            assert(idx =~= e);
        }
    } else {
        let p = s.drop_last();
        assert forall|i: int| 0 <= i < p.len() implies #[trigger] p[i].1 > 0 by {
            assert(p[i] == s[i]);
        }
        lemma_top_total_is_max(p, k);
        lemma_top_total_is_max(p, k - 1);
        lemma_top_total_pos(p, k);
        lemma_top_total_pos(p, k - 1);
        let a = top_total(p, k);
        let b = rat_add(top_total(p, k - 1), s.last());
        let top = rat_max(a, b);
        assert(top_total(s, k) == top);
        assert(b.1 > 0) by (nonlinear_arith)
            requires
                top_total(p, k - 1).1 > 0,
                s.last().1 > 0,
                b.1 == top_total(p, k - 1).1 * s.last().1,
        ;
        // The maximum is not below either candidate.
        assert(!rat_lt(top, a) && !rat_lt(top, b));
        if rat_lt(a, b) {
            let i2 = choose|idx: Seq<int>| selection(idx, n - 1, k - 1) && top_total(p, k - 1) == #[trigger] sel_sum(p, idx);
            let w = i2.push(n - 1);
            assert(w.drop_last() =~= i2);
            lemma_sel_sum_prefix(s, i2);
            assert(selection(w, n, k));
            assert(top_total(s, k) == sel_sum(s, w));
        } else {
            let i1 = choose|idx: Seq<int>| selection(idx, n - 1, k) && top_total(p, k) == #[trigger] sel_sum(p, idx);
            lemma_sel_sum_prefix(s, i1);
            assert(selection(i1, n, k));
            assert(top_total(s, k) == sel_sum(s, i1));
        }
        assert forall|idx: Seq<int>| selection(idx, n, k) implies !rat_lt(top_total(s, k), #[trigger] sel_sum(s, idx)) by {
            lemma_sel_sum_pos(s, idx);
            if idx.len() > 0 && idx.last() == n - 1 {
                let i2 = idx.drop_last();
                assert forall|x: int| 0 <= x < i2.len() implies 0 <= #[trigger] i2[x] < n - 1 by {
                    assert(i2[x] == idx[x]);
                    assert(idx[x] < idx[idx.len() - 1]);
                }
                assert(selection(i2, n - 1, k - 1));
                lemma_sel_sum_prefix(s, i2);
                lemma_sel_sum_pos(p, i2);
                let y = sel_sum(p, i2);
                assert(!rat_lt(top_total(p, k - 1), y));
                lemma_add_mono(y, top_total(p, k - 1), s.last());
                assert(sel_sum(s, idx) == rat_add(y, s.last()));
                lemma_rat_trans(rat_add(y, s.last()), b, top);
            } else {
                assert forall|x: int| 0 <= x < idx.len() implies 0 <= #[trigger] idx[x] < n - 1 by {
                    if idx[x] == n - 1 {
                        assert(x < idx.len() - 1 ==> idx[x] < idx[idx.len() - 1]);
                    }
                }
                assert(selection(idx, n - 1, k));
                lemma_sel_sum_prefix(s, idx);
                lemma_rat_trans(sel_sum(s, idx), a, top);
            }
        }
    }
}

/// The score of a code is the largest total of the expected eliminations of at most three
/// verifiers, reached by some three (or fewer) of them.
pub proof fn lemma_score_is_best_three(pools: Seq<Seq<Constraint>>, c: Code)
    ensures
        exists|idx: Seq<int>| selection(idx, pools.len() as int, 3) && score(pools, c) == #[trigger] sel_sum(elim_seq(pools, c), idx),
        forall|idx: Seq<int>|
            selection(idx, pools.len() as int, 3) ==> !rat_lt(score(pools, c), #[trigger] sel_sum(elim_seq(pools, c), idx)),
{
    let s = elim_seq(pools, c);
    assert forall|i: int| 0 <= i < s.len() implies #[trigger] s[i].1 > 0 by {}
    lemma_top_total_is_max(s, 3);
}

/// Entries that are all zero have a zero top total.
pub proof fn lemma_top_zero(s: Seq<(int, int)>, k: int)
    requires
        forall|i: int| 0 <= i < s.len() ==> (#[trigger] s[i]).0 == 0 && s[i].1 > 0,
    ensures
        top_total(s, k).0 == 0,
    decreases s.len(),
{
    if s.len() > 0 && k > 0 {
        let p = s.drop_last();
        assert forall|i: int| 0 <= i < p.len() implies (#[trigger] p[i]).0 == 0 && p[i].1 > 0 by {
            assert(p[i] == s[i]);
        }
        lemma_top_zero(p, k);
        lemma_top_zero(p, k - 1);
        let a = top_total(p, k - 1);
        let x = s.last();
        assert(a.0 * x.1 + x.0 * a.1 == 0) by (nonlinear_arith)
            requires
                a.0 == 0,
                x.0 == 0,
        ;
    }
}

/// Scores have positive denominators.
pub proof fn lemma_score_pos(pools: Seq<Seq<Constraint>>, c: Code)
    ensures
        score(pools, c).1 > 0,
{
    let s = elim_seq(pools, c);
    assert forall|i: int| 0 <= i < s.len() implies #[trigger] s[i].1 > 0 by {}
    lemma_top_total_pos(s, 3);
}

/// The score of `code` for these pools.
pub fn question_score(pools: &Vec<Vec<Constraint>>, code: Code) -> (r: (i32, i32))
    requires
        forall|v: int| 0 <= v < pools@.len() ==> #[trigger] pools@[v]@.len() <= 128,
        code.wf(),
    ensures
        frac(r) == score(deep(pools@), code),
        r.1 > 0,
{
    let ghost ps = deep(pools@);
    let ghost es = elim_seq(ps, code);
    let zero: (i32, i32) = (0, 1);
    let mut b1: (i32, i32) = (0, 1);
    let mut b2: (i32, i32) = (0, 1);
    let mut b3: (i32, i32) = (0, 1);
    let mut v: usize = 0;
    while v < pools.len()
        invariant
            forall|w: int| 0 <= w < pools@.len() ==> #[trigger] pools@[w]@.len() <= 128,
            code.wf(),
            ps == deep(pools@),
            es == elim_seq(ps, code),
            zero == (0i32, 1i32),
            v <= pools@.len(),
            frac(b1) == top_total(es.subrange(0, v as int), 1),
            frac(b2) == top_total(es.subrange(0, v as int), 2),
            frac(b3) == top_total(es.subrange(0, v as int), 3),
            0 <= b1.0 <= 64 * b1.1,
            1 <= b1.1 <= 128,
            0 <= b2.0 <= 128 * b2.1,
            1 <= b2.1 <= 16384,
            0 <= b3.0 <= 192 * b3.1,
            1 <= b3.1 <= 2097152,
        decreases pools@.len() - v,
    {
        let x = expected_eliminations(&pools[v], code);
        proof {
            let pre = es.subrange(0, v as int);
            let s = es.subrange(0, v + 1);
            assert(s.drop_last() =~= pre);
            assert(ps[v as int] == pools@[v as int]@);
            assert(s.last() == frac(x));
            assert(top_total(pre, 0) == (0int, 1int));
            lemma_add_bound(frac(zero), frac(x), 1, 1);
            lemma_add_bound(frac(b1), frac(x), 2, 128);
            lemma_add_bound(frac(b2), frac(x), 3, 16384);
        }
        let s1 = rat_sum(zero, x);
        let s2 = rat_sum(b1, x);
        let s3 = rat_sum(b2, x);
        let n3 = if ratio_lt(b3, s3) { s3 } else { b3 };
        let n2 = if ratio_lt(b2, s2) { s2 } else { b2 };
        let n1 = if ratio_lt(b1, s1) { s1 } else { b1 };
        b1 = n1;
        b2 = n2;
        b3 = n3;
        v = v + 1;
    }
    assert(es.subrange(0, v as int) =~= es);
    b3
}

/// The question to ask: the code of highest score, the lexicographically largest on a tie.
pub fn best_question(pools: &Vec<Vec<Constraint>>) -> (r: Code)
    requires
        forall|v: int| 0 <= v < pools@.len() ==> #[trigger] pools@[v]@.len() <= 128,
    ensures
        r.wf(),
        forall|i: int|
            0 <= i < 125 ==> !rat_lt(
                score(deep(pools@), r),
                #[trigger] score(deep(pools@), code_at(i)),
            ),
        forall|i: int|
            r.idx() < i < 125 ==> rat_lt(
                #[trigger] score(deep(pools@), code_at(i)),
                score(deep(pools@), r),
            ),
{
    let ghost ps = deep(pools@);
    let codes = Code::all();
    proof {
        lemma_idx_code_at(0);
    }
    let mut best: Code = codes[0];
    let mut best_score = question_score(pools, best);
    let mut i: usize = 1;
    while i < 125
        invariant
            forall|w: int| 0 <= w < pools@.len() ==> #[trigger] pools@[w]@.len() <= 128,
            ps == deep(pools@),
            codes@.len() == 125,
            forall|k: int| 0 <= k < 125 ==> codes@[k] == code_at(k),
            1 <= i <= 125,
            best.wf(),
            0 <= best.idx() < i,
            frac(best_score) == score(ps, best),
            best_score.1 > 0,
            forall|k: int| 0 <= k < i ==> !rat_lt(score(ps, best), #[trigger] score(ps, code_at(k))),
            forall|k: int| best.idx() < k < i ==> rat_lt(#[trigger] score(ps, code_at(k)), score(ps, best)),
        decreases 125 - i,
    {
        proof {
            lemma_idx_code_at(i as int);
        }
        let c = codes[i];
        let s = question_score(pools, c);
        if !ratio_lt(s, best_score) {
            proof {
                assert forall|k: int| 0 <= k < i + 1 implies !rat_lt(score(ps, c), #[trigger] score(ps, code_at(k))) by {
                    lemma_score_pos(ps, code_at(k));
                    if k < i {
                        lemma_rat_trans(score(ps, code_at(k)), score(ps, best), score(ps, c));
                    }
                }
            }
            best = c;
            best_score = s;
        } else {
            proof {
                lemma_score_pos(ps, c);
            }
        }
        i = i + 1;
    }
    best
}

/// The verifier with the highest expected eliminations for `code`, the first on a tie; none
/// when every expectation is zero.
pub fn best_verifier_for_question(pools: &Vec<Vec<Constraint>>, code: Code) -> (r: Option<usize>)
    requires
        forall|v: int| 0 <= v < pools@.len() ==> #[trigger] pools@[v]@.len() <= 128,
        code.wf(),
    ensures
        r is None <==> forall|v: int| 0 <= v < pools@.len() ==> (#[trigger] elims(pools@[v]@, code)).0 == 0,
        r is Some ==> {
            let i = r->0 as int;
            &&& 0 <= i < pools@.len()
            &&& elims(pools@[i]@, code).0 > 0
            &&& forall|v: int| 0 <= v < pools@.len() ==> !rat_lt(elims(pools@[i]@, code), #[trigger] elims(pools@[v]@, code))
            &&& forall|v: int| 0 <= v < i ==> rat_lt(#[trigger] elims(pools@[v]@, code), elims(pools@[i]@, code))
        },
{
    let mut best: (i32, i32) = (0, 1);
    let mut idx: Option<usize> = None;
    let mut v: usize = 0;
    while v < pools.len()
        invariant
            forall|w: int| 0 <= w < pools@.len() ==> #[trigger] pools@[w]@.len() <= 128,
            code.wf(),
            v <= pools@.len(),
            best.1 > 0,
            idx is None ==> best == (0i32, 1i32) && forall|w: int| 0 <= w < v ==> (#[trigger] elims(pools@[w]@, code)).0 == 0,
            idx is Some ==> {
                let i = idx->0 as int;
                &&& 0 <= i < v
                &&& frac(best) == elims(pools@[i]@, code)
                &&& best.0 > 0
                &&& forall|w: int| 0 <= w < v ==> !rat_lt(frac(best), #[trigger] elims(pools@[w]@, code))
                &&& forall|w: int| 0 <= w < i ==> rat_lt(#[trigger] elims(pools@[w]@, code), frac(best))
            },
        decreases pools@.len() - v,
    {
        let e = expected_eliminations(&pools[v], code);
        if ratio_lt(best, e) {
            proof {
                assert forall|w: int| 0 <= w < v implies rat_lt(#[trigger] elims(pools@[w]@, code), frac(e)) by {
                    let ew = elims(pools@[w]@, code);
                    if idx is None {
                        assert(ew.0 == 0);
                        assert(ew.1 > 0);
                        assert(0 < e.0);
                        assert(0 * e.1 < e.0 * ew.1) by (nonlinear_arith)
                            requires
                                ew.1 > 0,
                                e.0 > 0,
                        ;
                    } else {
                        lemma_rat_trans(ew, frac(best), frac(e));
                    }
                }
            }
            best = e;
            idx = Some(v);
        } else {
            proof {
                if idx is None {
                    assert(e.0 * 1 <= 0 * e.1);
                }
            }
        }
        v = v + 1;
    }
    idx
}

} // verus!
