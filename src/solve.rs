use vstd::prelude::*;
use std::collections::HashMap;
use crate::code::Code;
use crate::heuristic::{
    elims, n_accept, rat_lt, rat_add, score, elim_seq, sel_sum, selection, best_question, best_verifier_for_question,
    lemma_score_is_best_three, lemma_score_pos, lemma_top_zero,
};
use crate::code::{code_at, lemma_idx_code_at};
use crate::assignment::{
    deep, distinct_tags, possible, drawn_from, valid_assignment, settled, pruned, shrinks, keeps_valid, prune_pools, lemma_filter_full,
    lemma_total_shrinks, lemma_total_bound, lemma_pruned_shrinks, lemma_shrinks_trans, lemma_pruned_keeps,
    lemma_keeps_trans, lemma_fixpoint_settled, settle, prune_iter, lemma_prune_iter_fixed,
};
use crate::constraint::{Constraint, inter_of};
use crate::problem::{Problem, ProblemMode, total_size, tag_all, paired, concat_tagged, initial_pools, lemma_total_pair, lemma_concat_len};

verus! {

broadcast use vstd::std_specs::hash::group_hash_axioms;

/// Largest number of verifiers: the group tag has three bits.
pub const MAX_VERIFIERS: usize = 8;

/// Largest pool: bounds the exact 32-bit rational arithmetic of the heuristic.
pub const MAX_POOL: usize = 128;

/// An oracle that answers whether a verifier accepts a code.
pub trait Verifier {
    /// Whether `answer` is an answer this oracle may give for verifier `idx` on `code`; an oracle
    /// that promises nothing (a person at a prompt) leaves it true.
    open spec fn gives(&self, idx: usize, code: Code, answer: bool) -> bool {
        true
    }

    /// The answer of verifier `idx` for `code`.
    fn accepts(&self, idx: usize, code: Code) -> (r: bool)
        requires
            code.wf(),
        ensures
            self.gives(idx, code, r),
    ;
}

/// Answers from known hidden constraints, one per verifier (false for a verifier it lacks).
pub struct AutomaticVerifier(pub Vec<Constraint>);

impl Verifier for AutomaticVerifier {
    /// The hidden constraint of verifier `idx` decides; a verifier it lacks answers false.
    open spec fn gives(&self, idx: usize, code: Code, answer: bool) -> bool {
        answer == (idx < self.0@.len() && self.0@[idx as int].holds(code))
    }

    fn accepts(&self, idx: usize, code: Code) -> bool {
        if idx < self.0.len() {
            self.0[idx].accepts(code)
        } else {
            false
        }
    }
}

/// How much progress output the host should print.
#[derive(Clone, Copy, Debug, PartialEq, Eq, Structural)]
pub enum SolverVerbosity {
    Silent,
    Normal,
    Verbose,
}

/// Why solving stopped without a code.
#[derive(Debug)]
pub enum SolverError {
    /// These verifiers have no constraint left.
    Impossible(Vec<usize>),
    /// Every verifier's constraint is known, yet these codes all satisfy them.
    MultipleSolutions(Vec<Code>),
}

/// The pools after keeping, in pool `v`, only the constraints that give answer `a` on `code`.
pub open spec fn answered(pools: Seq<Seq<Constraint>>, v: int, code: Code, a: bool) -> Seq<Seq<Constraint>> {
    pools.update(v, pools[v].filter(|x: Constraint| x.holds(code) == a))
}

/// Verifier `v` expects the most eliminations from `code`, more than zero, and strictly more than
/// every verifier before it.
pub open spec fn best_verifier(pools: Seq<Seq<Constraint>>, code: Code, v: int) -> bool {
    &&& 0 <= v < pools.len()
    &&& elims(pools[v], code).0 > 0
    &&& forall|w: int| 0 <= w < pools.len() ==> !rat_lt(elims(pools[v], code), #[trigger] elims(pools[w], code))
    &&& forall|w: int| 0 <= w < v ==> rat_lt(#[trigger] elims(pools[w], code), elims(pools[v], code))
}

/// No verifier expects any elimination from `code`.
pub open spec fn no_gain(pools: Seq<Seq<Constraint>>, code: Code) -> bool {
    forall|v: int| 0 <= v < pools.len() ==> (#[trigger] elims(pools[v], code)).0 == 0
}

/// The pools after each (verifier, answer) step on `code` in turn.
pub open spec fn after_steps(pools: Seq<Seq<Constraint>>, code: Code, steps: Seq<(usize, bool)>) -> Seq<Seq<Constraint>>
    decreases steps.len(),
{
    if steps.len() == 0 {
        pools
    } else {
        settle(answered(after_steps(pools, code, steps.drop_last()), steps.last().0 as int, code, steps.last().1))
    }
}

/// Each step asked the best verifier at that point and got an answer the oracle may give.
pub open spec fn steps_follow<V: Verifier>(pools: Seq<Seq<Constraint>>, code: Code, oracle: V, steps: Seq<(usize, bool)>) -> bool
    decreases steps.len(),
{
    steps.len() == 0 || {
        &&& steps_follow(pools, code, oracle, steps.drop_last())
        &&& best_verifier(after_steps(pools, code, steps.drop_last()), code, steps.last().0 as int)
        &&& oracle.gives(steps.last().0, code, steps.last().1)
    }
}

/// The answers of the steps, by verifier.
pub open spec fn steps_map(steps: Seq<(usize, bool)>) -> Map<usize, bool>
    decreases steps.len(),
{
    if steps.len() == 0 {
        Map::empty()
    } else {
        steps_map(steps.drop_last()).insert(steps.last().0, steps.last().1)
    }
}

/// The constraints of `cs` give the recorded answers on `code`.
pub open spec fn agrees(cs: Seq<Constraint>, code: Code, m: Map<usize, bool>) -> bool {
    forall|v: usize| #[trigger] m.dom().contains(v) ==> v < cs.len() && cs[v as int].holds(code) == m[v]
}

/// What a completed round did, given the steps it took from pools `start` to pools `end` and
/// the history before and after.
pub open spec fn round_done(
    start: Seq<Seq<Constraint>>,
    code: Code,
    steps: Seq<(usize, bool)>,
    end: Seq<Seq<Constraint>>,
    asked0: Seq<Code>,
    replies0: Seq<Map<usize, bool>>,
    asked1: Seq<Code>,
    replies1: Seq<Map<usize, bool>>,
) -> bool {
    &&& end == after_steps(start, code, steps)
    &&& steps.len() < 3 ==> no_gain(end, code)
    &&& steps.len() == 0 ==> asked1 == asked0 && replies1 == replies0
    &&& steps.len() > 0 ==> asked1 == asked0.push(code) && replies1 == replies0.push(steps_map(steps))
    &&& forall|cs: Seq<Constraint>|
        drawn_from(start, cs) && valid_assignment(cs) && agrees(cs, code, steps_map(steps)) ==> #[trigger] drawn_from(end, cs)
}

/// Every constraint of each pool accepts the same codes as the pool's first constraint.
pub open spec fn uniform(pools: Seq<Seq<Constraint>>) -> bool {
    forall|v: int, j: int, i: int|
        0 <= v < pools.len() && 0 <= j < pools[v].len() && 0 <= i < 125 ==> #[trigger] pools[v][j].has(i) == pools[v][0].has(i)
}

/// The constraints of `cs` give every answer recorded from round `from` on.
pub open spec fn agrees_from(cs: Seq<Constraint>, asked: Seq<Code>, replies: Seq<Map<usize, bool>>, from: int) -> bool {
    forall|r: int| from <= r < replies.len() ==> #[trigger] agrees(cs, asked[r], replies[r])
}

/// Every answer recorded from round `from` on is one the oracle may give.
pub open spec fn oracle_gave<V: Verifier>(oracle: V, asked: Seq<Code>, replies: Seq<Map<usize, bool>>, from: int) -> bool {
    forall|r: int, v: usize|
        from <= r < replies.len() && #[trigger] replies[r].dom().contains(v) ==> oracle.gives(v, asked[r], replies[r][v])
}

/// Sum of the sizes of the answer maps.
pub open spec fn sum_sizes(s: Seq<Map<usize, bool>>) -> nat
    decreases s.len(),
{
    if s.len() == 0 {
        0
    } else {
        sum_sizes(s.drop_last()) + s.last().len()
    }
}

/// Indices of the empty pools among the first `n`, in increasing order.
pub open spec fn empty_upto(pools: Seq<Seq<Constraint>>, n: int) -> Seq<usize>
    decreases n,
{
    if n <= 0 {
        Seq::empty()
    } else if pools[n - 1].len() == 0 {
        empty_upto(pools, n - 1).push((n - 1) as usize)
    } else {
        empty_upto(pools, n - 1)
    }
}

/// Indices of the empty pools, in increasing order.
pub open spec fn empty_pools(pools: Seq<Seq<Constraint>>) -> Seq<usize> {
    empty_upto(pools, pools.len() as int)
}

/// Every pool holds exactly one constraint.
pub open spec fn all_known(pools: Seq<Seq<Constraint>>) -> bool {
    forall|v: int| 0 <= v < pools.len() ==> #[trigger] pools[v].len() == 1
}

/// The first constraint of each pool.
pub open spec fn firsts(pools: Seq<Seq<Constraint>>) -> Seq<Constraint> {
    Seq::new(pools.len(), |v: int| pools[v][0])
}

/// What `has_solution` reports on these pools.
pub open spec fn solution_state(pools: Seq<Seq<Constraint>>, r: Result<Option<Code>, SolverError>) -> bool {
    if !all_known(pools) {
        r is Ok && r->Ok_0 is None
    } else if inter_of(firsts(pools)).size() == 1 {
        r == Ok::<Option<Code>, SolverError>(Some(inter_of(firsts(pools)).members()[0]))
    } else {
        r is Err && r->Err_0 is MultipleSolutions && r->Err_0->MultipleSolutions_0@ == inter_of(firsts(pools)).members()
    }
}

/// The deduction state: one pool of candidate constraints per verifier, and the questions asked.
pub struct Solver<V: Verifier> {
    verifiers: Vec<Vec<Constraint>>,
    questions: Vec<Code>,
    answers: Vec<HashMap<usize, bool>>,
    verbosity: SolverVerbosity,
    verifier: V,
    received: Ghost<nat>,
    budget: Ghost<nat>,
}

impl<V: Verifier> Solver<V> {
    /// The pool of each verifier.
    pub closed spec fn pools(&self) -> Seq<Seq<Constraint>> {
        deep(self.verifiers@)
    }

    /// The codes asked, one per round.
    pub closed spec fn asked(&self) -> Seq<Code> {
        self.questions@
    }

    /// For each round, the answer of each verifier that was queried.
    pub closed spec fn replies(&self) -> Seq<Map<usize, bool>> {
        self.answers@.map_values(|m: HashMap<usize, bool>| m@)
    }

    /// How many answers the rounds have recorded.
    pub closed spec fn answers_received(&self) -> nat {
        self.received@
    }

    /// The bound on answers plus remaining constraints, fixed at construction.
    pub closed spec fn bound(&self) -> nat {
        self.budget@
    }

    pub closed spec fn level(&self) -> SolverVerbosity {
        self.verbosity
    }

    pub closed spec fn oracle(&self) -> V {
        self.verifier
    }

    /// The solver's invariant.
    pub closed spec fn wf(&self) -> bool {
        &&& self.verifiers@.len() <= MAX_VERIFIERS
        &&& forall|v: int| 0 <= v < self.verifiers@.len() ==> #[trigger] self.verifiers@[v]@.len() <= MAX_POOL
        &&& self.questions@.len() == self.answers@.len()
        &&& sum_sizes(self.replies()) == self.received@
        &&& self.received@ + total_size(self.pools()) <= self.budget@
        &&& self.budget@ <= MAX_VERIFIERS * MAX_POOL
    }

    /// Tags the constraints of list `i` with group `i`.
    fn assign_groups(constraints: Vec<Vec<Constraint>>) -> (r: Vec<Vec<Constraint>>)
        requires
            constraints@.len() <= MAX_VERIFIERS,
        ensures
            deep(r@) == Seq::new(constraints@.len(), |i: int| tag_all(constraints@[i]@, i)),
    {
        let mut r: Vec<Vec<Constraint>> = Vec::new();
        let mut i: usize = 0;
        while i < constraints.len()
            invariant
                i <= constraints@.len() <= MAX_VERIFIERS,
                r@.len() == i,
                forall|k: int| 0 <= k < i ==> #[trigger] r@[k]@ == tag_all(constraints@[k]@, k),
            decreases constraints@.len() - i,
        {
            let mut row: Vec<Constraint> = Vec::new();
            let mut j: usize = 0;
            while j < constraints[i].len()
                invariant
                    i < constraints@.len() <= MAX_VERIFIERS,
                    j <= constraints@[i as int]@.len(),
                    row@ == tag_all(constraints@[i as int]@, i as int).subrange(0, j as int),
                decreases constraints@[i as int]@.len() - j,
            {
                row.push(constraints[i][j].with_group(i as u8));
                j = j + 1;
                assert(row@ =~= tag_all(constraints@[i as int]@, i as int).subrange(0, j as int));
            }
            assert(row@ =~= tag_all(constraints@[i as int]@, i as int));
            r.push(row);
            i = i + 1;
        }
        assert(deep(r@) =~= Seq::new(constraints@.len(), |i: int| tag_all(constraints@[i]@, i)));
        r
    }

    /// The solver for `problem`, asking `verifier` for answers.
    pub fn new(problem: &Problem, verifier: V) -> (r: Solver<V>)
        requires
            problem.cards@.len() <= MAX_VERIFIERS,
            problem.size() <= MAX_POOL,
        ensures
            r.wf(),
            r.pools() == initial_pools(problem.mode, problem.card_views()),
            r.asked().len() == 0,
            r.replies().len() == 0,
            r.answers_received() == 0,
            r.level() == SolverVerbosity::Normal,
            r.oracle() == verifier,
    {
        let n = problem.cards.len();
        let ghost cards = problem.card_views();
        let mut lists: Vec<Vec<Constraint>> = Vec::new();
        let mut i: usize = 0;
        while i < n
            invariant
                n == problem.cards@.len(),
                cards == problem.card_views(),
                i <= n,
                lists@.len() == i,
                forall|k: int| 0 <= k < i ==> #[trigger] lists@[k]@ == cards[k],
            decreases n - i,
        {
            lists.push(problem.cards[i].constraints());
            i = i + 1;
        }
        let verifiers: Vec<Vec<Constraint>> = match problem.mode {
            ProblemMode::Normal => Self::assign_groups(lists),
            ProblemMode::Extreme => {
                let mut pairs: Vec<Vec<Constraint>> = Vec::new();
                let mut j: usize = 0;
                while 2 * j < n
                    invariant
                        n == lists@.len() == cards.len() <= MAX_VERIFIERS,
                        forall|k: int| 0 <= k < n ==> #[trigger] lists@[k]@ == cards[k],
                        2 * j <= n + 1,
                        pairs@.len() == j,
                        forall|k: int| 0 <= k < j ==> #[trigger] pairs@[k]@ == paired(cards, k),
                    decreases n + 1 - 2 * j,
                {
                    let mut l = copy_pool(&lists[2 * j]);
                    if 2 * j + 1 < n {
                        let mut m = copy_pool(&lists[2 * j + 1]);
                        l.append(&mut m);
                    }
                    pairs.push(l);
                    j = j + 1;
                }
                assert(j == (n + 1) / 2);
                Self::assign_groups(pairs)
            },
            ProblemMode::Nightmare => {
                let tagged = Self::assign_groups(lists);
                assert(deep(tagged@).len() == tagged@.len());
                let mut master: Vec<Constraint> = Vec::new();
                let mut k: usize = 0;
                while k < n
                    invariant
                        n == cards.len() <= MAX_VERIFIERS,
                        tagged@.len() == n,
                        deep(tagged@) == Seq::new(n as nat, |i: int| tag_all(cards[i], i)),
                        k <= n,
                        master@ == concat_tagged(cards, k as int),
                    decreases n - k,
                {
                    let mut m = copy_pool(&tagged[k]);
                    assert(m@ == deep(tagged@)[k as int]);
                    master.append(&mut m);
                    k = k + 1;
                }
                let mut all: Vec<Vec<Constraint>> = Vec::new();
                let mut k: usize = 0;
                while k < n
                    invariant
                        k <= n,
                        all@.len() == k,
                        forall|i: int| 0 <= i < k ==> #[trigger] all@[i]@ == master@,
                    decreases n - k,
                {
                    all.push(copy_pool(&master));
                    k = k + 1;
                }
                all
            },
        };
        let ghost pools = deep(verifiers@);
        proof {
            let init = initial_pools(problem.mode, cards);
            assert(pools =~= init);
            assert forall|v: int| 0 <= v < init.len() implies #[trigger] init[v].len() <= MAX_POOL by {
                match problem.mode {
                    ProblemMode::Normal => {
                        lemma_total_pair(cards, v, v);
                    },
                    ProblemMode::Extreme => {
                        if 2 * v + 1 < cards.len() {
                            lemma_total_pair(cards, 2 * v, 2 * v + 1);
                        }
                        lemma_total_pair(cards, 2 * v, 2 * v);
                    },
                    ProblemMode::Nightmare => {
                        lemma_concat_len(cards, cards.len() as int);
                        assert(cards.subrange(0, cards.len() as int) =~= cards);
                    },
                }
            }
            lemma_total_bound(pools, MAX_POOL as nat);
            assert(pools.len() == verifiers@.len());
            assert forall|v: int| 0 <= v < verifiers@.len() implies #[trigger] verifiers@[v]@.len() <= MAX_POOL by {
                assert(pools[v] == verifiers@[v]@);
            }
            assert(pools.len() * MAX_POOL <= MAX_VERIFIERS * MAX_POOL) by (nonlinear_arith)
                requires
                    pools.len() <= MAX_VERIFIERS,
            ;
        }
        let r = Solver {
            verifiers,
            questions: Vec::new(),
            answers: Vec::new(),
            verbosity: SolverVerbosity::Normal,
            verifier,
            received: Ghost(0),
            budget: Ghost(total_size(pools)),
        };
        proof {
            assert(r.replies() =~= Seq::<Map<usize, bool>>::empty());
        }
        r
    }

    /// The same solver with another verbosity.
    pub fn verbosity(self, verbosity: SolverVerbosity) -> (r: Self)
        ensures
            r.level() == verbosity,
            r.pools() == self.pools(),
            r.asked() == self.asked(),
            r.replies() == self.replies(),
            r.answers_received() == self.answers_received(),
            r.oracle() == self.oracle(),
            self.wf() ==> r.wf(),
    {
        Solver { verbosity, ..self }
    }

    /// The same solver answered automatically from the given hidden constraints, printing nothing.
    pub fn automatic(self, verifiers: Vec<Constraint>) -> (r: Solver<AutomaticVerifier>)
        ensures
            r.level() == SolverVerbosity::Silent,
            r.oracle().0@ == verifiers@,
            r.pools() == self.pools(),
            r.asked() == self.asked(),
            r.replies() == self.replies(),
            r.answers_received() == self.answers_received(),
            self.wf() ==> r.wf(),
    {
        Solver {
            verifiers: self.verifiers,
            questions: self.questions,
            answers: self.answers,
            verbosity: SolverVerbosity::Silent,
            verifier: AutomaticVerifier(verifiers),
            received: self.received,
            budget: self.budget,
        }
    }

    /// Number of rounds played.
    pub fn num_rounds(&self) -> (r: usize)
        ensures
            r == self.asked().len(),
    {
        self.questions.len()
    }

    /// Number of answers received over all rounds.
    pub fn num_questions(&self) -> (r: usize)
        requires
            self.wf(),
        ensures
            r == sum_sizes(self.replies()),
            r == self.answers_received(),
    {
        let ghost rs = self.replies();
        let mut total: usize = 0;
        let mut i: usize = 0;
        while i < self.answers.len()
            invariant
                self.wf(),
                rs == self.replies(),
                i <= self.answers@.len(),
                total == sum_sizes(rs.subrange(0, i as int)),
            decreases self.answers@.len() - i,
        {
            proof {
                lemma_sum_prefix(rs, i + 1);
                assert(rs.subrange(0, i + 1).drop_last() =~= rs.subrange(0, i as int));
                assert(rs[i as int] == self.answers@[i as int]@);
            }
            total = total + self.answers[i].len();
            i = i + 1;
        }
        assert(rs.subrange(0, i as int) =~= rs);
        total
    }

    /// The verifiers whose pools are empty; an error if there is any.
    fn err_if_invalid(&self) -> (r: Result<(), SolverError>)
        ensures
            r is Ok <==> empty_pools(self.pools()).len() == 0,
            r is Err ==> r->Err_0 is Impossible && r->Err_0->Impossible_0@ == empty_pools(self.pools()),
    {
        let ghost ps = self.pools();
        let mut vs: Vec<usize> = Vec::new();
        let mut i: usize = 0;
        while i < self.verifiers.len()
            invariant
                ps == self.pools(),
                i <= self.verifiers@.len(),
                vs@ == empty_upto(ps, i as int),
            decreases self.verifiers@.len() - i,
        {
            proof {
                assert(ps[i as int] == self.verifiers@[i as int]@);
            }
            if self.verifiers[i].len() == 0 {
                vs.push(i);
            }
            i = i + 1;
        }
        if vs.len() == 0 {
            Ok(())
        } else {
            Err(SolverError::Impossible(vs))
        }
    }

    /// Whether the code is known: `Some` when every pool has one constraint and together they
    /// accept one code; an error when they accept several or none.
    pub fn has_solution(&self) -> (r: Result<Option<Code>, SolverError>)
        ensures
            solution_state(self.pools(), r),
    {
        let ghost ps = self.pools();
        let mut known: Vec<Constraint> = Vec::new();
        let mut i: usize = 0;
        while i < self.verifiers.len()
            invariant
                ps == self.pools(),
                i <= self.verifiers@.len(),
                forall|v: int| 0 <= v < i ==> #[trigger] ps[v].len() == 1,
                known@ == firsts(ps).subrange(0, i as int),
            decreases self.verifiers@.len() - i,
        {
            proof {
                assert(ps[i as int] == self.verifiers@[i as int]@);
            }
            if self.verifiers[i].len() != 1 {
                return Ok(None);
            }
            known.push(self.verifiers[i][0]);
            i = i + 1;
            assert(known@ =~= firsts(ps).subrange(0, i as int));
        }
        assert(known@ =~= firsts(ps));
        let cons = Constraint::inter(&known);
        match cons.solution() {
            Some(s) => Ok(Some(s)),
            None => Err(SolverError::MultipleSolutions(cons.solutions())),
        }
    }

    /// Total number of constraints over all pools.
    fn total_len(&self) -> (r: usize)
        requires
            self.wf(),
        ensures
            r == total_size(self.pools()),
    {
        let ghost ps = self.pools();
        let mut total: usize = 0;
        let mut i: usize = 0;
        while i < self.verifiers.len()
            invariant
                self.wf(),
                ps == self.pools(),
                i <= self.verifiers@.len(),
                total == total_size(ps.subrange(0, i as int)),
            decreases self.verifiers@.len() - i,
        {
            proof {
                lemma_total_prefix(ps, i + 1);
                assert(ps.subrange(0, i + 1).drop_last() =~= ps.subrange(0, i as int));
                assert(ps[i as int] == self.verifiers@[i as int]@);
            }
            total = total + self.verifiers[i].len();
            i = i + 1;
        }
        assert(ps.subrange(0, i as int) =~= ps);
        total
    }

    /// One elimination pass: drops every constraint that no globally valid assignment uses, and
    /// returns how many were dropped.
    fn eliminate_step(&mut self) -> (r: usize)
        requires
            old(self).wf(),
        ensures
            final(self).wf(),
            final(self).pools() == pruned(old(self).pools()),
            total_size(final(self).pools()) + r == total_size(old(self).pools()),
            final(self).asked() == old(self).asked(),
            final(self).replies() == old(self).replies(),
            final(self).answers_received() == old(self).answers_received(),
            final(self).level() == old(self).level(),
            final(self).oracle() == old(self).oracle(),
            final(self).bound() == old(self).bound(),
    {
        let before = self.total_len();
        let pools = prune_pools(&self.verifiers);
        let ghost ps = self.pools();
        proof {
            lemma_pruned_shrinks(ps);
            assert forall|v: int| 0 <= v < pools@.len() implies #[trigger] pools@[v]@.len() <= MAX_POOL by {
                assert(pools@[v]@ == pruned(ps)[v]);
                assert(ps[v] == self.verifiers@[v]@);
            }
            lemma_total_shrinks(ps, pruned(ps));
        }
        self.verifiers = pools;
        let after = self.total_len();
        before - after
    }

    /// Eliminates until a pass drops nothing; then reports the verifiers left without constraints.
    pub fn eliminate(&mut self) -> (r: Result<(), SolverError>)
        requires
            old(self).wf(),
        ensures
            final(self).wf(),
            final(self).pools() == settle(old(self).pools()),
            shrinks(old(self).pools(), final(self).pools()),
            keeps_valid(old(self).pools(), final(self).pools()),
            settled(final(self).pools()),
            r is Ok <==> empty_pools(final(self).pools()).len() == 0,
            r is Err ==> r->Err_0 is Impossible && r->Err_0->Impossible_0@ == empty_pools(final(self).pools()),
            final(self).asked() == old(self).asked(),
            final(self).replies() == old(self).replies(),
            final(self).answers_received() == old(self).answers_received(),
            final(self).level() == old(self).level(),
            final(self).oracle() == old(self).oracle(),
            final(self).bound() == old(self).bound(),
    {
        let ghost start = self.pools();
        let ghost mut passes: nat = 0;
        loop
            invariant
                self.wf(),
                self.pools() == prune_iter(start, passes),
                passes + total_size(self.pools()) <= total_size(start),
                shrinks(start, self.pools()),
                keeps_valid(start, self.pools()),
                self.asked() == old(self).asked(),
                self.replies() == old(self).replies(),
                self.answers_received() == old(self).answers_received(),
                self.level() == old(self).level(),
                self.oracle() == old(self).oracle(),
                self.bound() == old(self).bound(),
                start == old(self).pools(),
            ensures
                settled(self.pools()),
                self.pools() == settle(start),
            decreases total_size(self.pools()),
        {
            let ghost prev = self.pools();
            let n = self.eliminate_step();
            proof {
                lemma_pruned_shrinks(prev);
                lemma_shrinks_trans(start, prev, self.pools());
                lemma_pruned_keeps(prev);
                lemma_keeps_trans(start, prev, self.pools());
            }
            if n == 0 {
                proof {
                    lemma_total_shrinks(prev, pruned(prev));
                    lemma_fixpoint_settled(prev);
                    lemma_prune_iter_fixed(start, passes, total_size(start));
                }
                break;
            }
            proof {
                passes = passes + 1;
            }
        }
        self.err_if_invalid()
    }

    /// Number of verifiers.
    pub fn num_verifiers(&self) -> (r: usize)
        ensures
            r == self.pools().len(),
    {
        self.verifiers.len()
    }

    /// The current pool of verifier `v`.
    pub fn pool(&self, v: usize) -> (r: &Vec<Constraint>)
        requires
            v < self.pools().len(),
        ensures
            r@ == self.pools()[v as int],
    {
        &self.verifiers[v]
    }

    /// The codes asked so far, one per round.
    pub fn questions(&self) -> (r: &Vec<Code>)
        ensures
            r@ == self.asked(),
    {
        &self.questions
    }

    /// The answer that verifier `v` gave in round `round`, if it was asked.
    pub fn answer(&self, round: usize, v: usize) -> (r: Option<bool>)
        requires
            round < self.replies().len(),
        ensures
            r == (if self.replies()[round as int].dom().contains(v) { Some(self.replies()[round as int][v]) } else { None::<bool> }),
    {
        match self.answers[round].get(&v) {
            Some(a) => Some(*a),
            None => None,
        }
    }

    /// The verbosity the host asked for.
    pub fn get_verbosity(&self) -> (r: SolverVerbosity)
        ensures
            r == self.level(),
    {
        self.verbosity
    }

    /// Keeps, in the pool of `verifier`, the constraints that give `answer` on `code`, then
    /// eliminates to a fixed point.
    pub fn apply_answer(&mut self, code: Code, verifier: usize, answer: bool) -> (r: Result<(), SolverError>)
        requires
            old(self).wf(),
            code.wf(),
            verifier < old(self).pools().len(),
        ensures
            final(self).wf(),
            final(self).pools() == settle(answered(old(self).pools(), verifier as int, code, answer)),
            shrinks(old(self).pools(), final(self).pools()),
            settled(final(self).pools()),
            forall|x: Constraint| #[trigger] final(self).pools()[verifier as int].contains(x) ==> x.holds(code) == answer,
            forall|cs: Seq<Constraint>|
                drawn_from(old(self).pools(), cs) && valid_assignment(cs) && cs[verifier as int].holds(code) == answer
                    ==> #[trigger] drawn_from(final(self).pools(), cs),
            r is Ok <==> empty_pools(final(self).pools()).len() == 0,
            r is Err ==> r->Err_0 is Impossible && r->Err_0->Impossible_0@ == empty_pools(final(self).pools()),
            elims(old(self).pools()[verifier as int], code).0 > 0 ==> total_size(final(self).pools()) < total_size(old(self).pools()),
            final(self).asked() == old(self).asked(),
            final(self).replies() == old(self).replies(),
            final(self).answers_received() == old(self).answers_received(),
            final(self).level() == old(self).level(),
            final(self).oracle() == old(self).oracle(),
            final(self).bound() == old(self).bound(),
    {
        let ghost ps = self.pools();
        let ghost pred = |x: Constraint| x.holds(code) == answer;
        let mut kept: Vec<Constraint> = Vec::new();
        let mut j: usize = 0;
        while j < self.verifiers[verifier].len()
            invariant
                ps == self.pools(),
                verifier < self.verifiers@.len(),
                code.wf(),
                j <= self.verifiers@[verifier as int]@.len(),
                pred == (|x: Constraint| x.holds(code) == answer),
                kept@ == ps[verifier as int].subrange(0, j as int).filter(pred),
            decreases self.verifiers@[verifier as int]@.len() - j,
        {
            proof {
                reveal(Seq::filter);
                assert(ps[verifier as int] == self.verifiers@[verifier as int]@);
                assert(ps[verifier as int].subrange(0, j + 1).drop_last() =~= ps[verifier as int].subrange(0, j as int));
            }
            let c = self.verifiers[verifier][j];
            if c.accepts(code) == answer {
                kept.push(c);
            }
            j = j + 1;
        }
        proof {
            assert(ps[verifier as int] == self.verifiers@[verifier as int]@);
            assert(ps[verifier as int].subrange(0, j as int) =~= ps[verifier as int]);
            lemma_filter_full(ps[verifier as int], pred);
        }
        self.verifiers[verifier] = kept;
        let ghost mid = self.pools();
        proof {
            assert(mid =~= ps.update(verifier as int, ps[verifier as int].filter(pred)));
            assert(shrinks(ps, mid));
            lemma_total_shrinks(ps, mid);
            if elims(ps[verifier as int], code).0 > 0 {
                lemma_split_answers(ps[verifier as int], code);
                if answer {
                    let k = choose|k: int| 0 <= k < ps[verifier as int].len() && !ps[verifier as int][k].holds(code);
                    assert(!pred(ps[verifier as int][k]));
                } else {
                    let k = choose|k: int| 0 <= k < ps[verifier as int].len() && ps[verifier as int][k].holds(code);
                    assert(!pred(ps[verifier as int][k]));
                }
                assert(mid[verifier as int].len() != ps[verifier as int].len());
            }
            assert forall|v: int| 0 <= v < self.verifiers@.len() implies #[trigger] self.verifiers@[v]@.len() <= MAX_POOL by {
                assert(mid[v] == self.verifiers@[v]@);
                assert(ps[v] == old(self).verifiers@[v]@);
            }
            assert forall|cs: Seq<Constraint>|
                drawn_from(ps, cs) && valid_assignment(cs) && cs[verifier as int].holds(code) == answer implies #[trigger] drawn_from(
                mid,
                cs,
            ) by {
                assert forall|w: int| 0 <= w < cs.len() implies #[trigger] mid[w].contains(cs[w]) by {
                    assert(ps[w].contains(cs[w]));
                    if w == verifier {
                        let i = choose|i: int| 0 <= i < ps[w].len() && ps[w][i] == cs[w];
                        ps[w].lemma_filter_contains(pred, i);
                    }
                }
            }
        }
        let res = self.eliminate();
        proof {
            lemma_shrinks_trans(ps, mid, self.pools());
            lemma_total_shrinks(mid, self.pools());
            assert forall|x: Constraint| #[trigger] self.pools()[verifier as int].contains(x) implies x.holds(code) == answer by {
                assert(mid[verifier as int].contains(x));
                let k = choose|k: int| 0 <= k < mid[verifier as int].len() && mid[verifier as int][k] == x;
                ps[verifier as int].lemma_filter_pred(pred, k);
            }
        }
        res
    }

    /// Asks verifier `verifier` about `code`, then applies its answer.
    pub fn question(&mut self, code: Code, verifier: usize) -> (r: Result<bool, SolverError>)
        requires
            old(self).wf(),
            code.wf(),
            verifier < old(self).pools().len(),
        ensures
            final(self).wf(),
            shrinks(old(self).pools(), final(self).pools()),
            settled(final(self).pools()),
            r is Ok ==> old(self).oracle().gives(verifier, code, r->Ok_0),
            r is Ok ==> final(self).pools() == settle(answered(old(self).pools(), verifier as int, code, r->Ok_0)),
            r is Ok ==> forall|x: Constraint| #[trigger] final(self).pools()[verifier as int].contains(x) ==> x.holds(code) == r->Ok_0,
            r is Ok ==> forall|cs: Seq<Constraint>|
                drawn_from(old(self).pools(), cs) && valid_assignment(cs) && cs[verifier as int].holds(code) == r->Ok_0
                    ==> #[trigger] drawn_from(final(self).pools(), cs),
            r is Err ==> exists|a: bool|
                old(self).oracle().gives(verifier, code, a) && final(self).pools() == #[trigger] settle(
                    answered(old(self).pools(), verifier as int, code, a),
                ),
            r is Ok <==> empty_pools(final(self).pools()).len() == 0,
            r is Err ==> r->Err_0 is Impossible && r->Err_0->Impossible_0@ == empty_pools(final(self).pools()),
            elims(old(self).pools()[verifier as int], code).0 > 0 ==> total_size(final(self).pools()) < total_size(old(self).pools()),
            final(self).asked() == old(self).asked(),
            final(self).replies() == old(self).replies(),
            final(self).answers_received() == old(self).answers_received(),
            final(self).level() == old(self).level(),
            final(self).oracle() == old(self).oracle(),
            final(self).bound() == old(self).bound(),
    {
        let answer = self.verifier.accepts(verifier, code);
        match self.apply_answer(code, verifier, answer) {
            Ok(()) => Ok(answer),
            Err(e) => Err(e),
        }
    }

    /// One round: asks `code` to up to three verifiers, each time the one expected to eliminate
    /// the most, and records the round if any verifier was asked.
    pub fn round(&mut self, code: Code) -> (r: Result<(), SolverError>)
        requires
            old(self).wf(),
            code.wf(),
        ensures
            final(self).wf(),
            shrinks(old(self).pools(), final(self).pools()),
            final(self).level() == old(self).level(),
            final(self).oracle() == old(self).oracle(),
            r is Err ==> r->Err_0 is Impossible && r->Err_0->Impossible_0@ == empty_pools(final(self).pools())
                && empty_pools(final(self).pools()).len() > 0,
            r is Ok ==> ({
                &&& final(self).asked() == old(self).asked()
                &&& final(self).replies() == old(self).replies()
                &&& final(self).answers_received() == old(self).answers_received()
                &&& final(self).pools() == old(self).pools()
                &&& forall|v: int| 0 <= v < old(self).pools().len() ==> (#[trigger] elims(old(self).pools()[v], code)).0 == 0
            } || {
                &&& final(self).asked() == old(self).asked().push(code)
                &&& final(self).replies().len() == old(self).replies().len() + 1
                &&& final(self).replies().drop_last() == old(self).replies()
                &&& 1 <= final(self).replies().last().len() <= 3
                &&& final(self).answers_received() == old(self).answers_received() + final(self).replies().last().len()
                &&& total_size(final(self).pools()) < total_size(old(self).pools())
                &&& settled(final(self).pools())
                &&& empty_pools(final(self).pools()).len() == 0
            }),
            exists|steps: Seq<(usize, bool)>|
                #[trigger] steps_follow(old(self).pools(), code, old(self).oracle(), steps) && steps.len() <= 3 && (r is Ok
                    ==> round_done(
                    old(self).pools(),
                    code,
                    steps,
                    final(self).pools(),
                    old(self).asked(),
                    old(self).replies(),
                    final(self).asked(),
                    final(self).replies(),
                                )) && (r is Err ==> {
                    &&& settled(final(self).pools())
                    &&& final(self).asked() == old(self).asked()
                    &&& final(self).replies() == old(self).replies()
                    &&& exists|v: usize, a: bool|
                        best_verifier(after_steps(old(self).pools(), code, steps), code, v as int) && old(self).oracle().gives(
                            v,
                            code,
                            a,
                        ) && final(self).pools() == #[trigger] settle(
                            answered(after_steps(old(self).pools(), code, steps), v as int, code, a),
                        )
                }),
    {
        let ghost start = self.pools();
        let mut answers: HashMap<usize, bool> = HashMap::new();
        let mut t: usize = 0;
        let ghost mut steps: Seq<(usize, bool)> = Seq::empty();
        loop
            invariant
                steps.len() == t,
                steps_follow(start, code, self.oracle(), steps),
                self.pools() == after_steps(start, code, steps),
                answers@ == steps_map(steps),
                forall|cs: Seq<Constraint>|
                    drawn_from(start, cs) && valid_assignment(cs) && agrees(cs, code, answers@) ==> #[trigger] drawn_from(
                        self.pools(),
                        cs,
                    ),
                self.wf(),
                code.wf(),
                t <= 3,
                answers@.len() == t,
                answers@.dom().finite(),
                start == old(self).pools(),
                shrinks(start, self.pools()),
                total_size(self.pools()) + t <= total_size(start),
                self.received@ + total_size(start) <= self.budget@,
                t == 0 ==> self.pools() == start,
                t > 0 ==> settled(self.pools()) && empty_pools(self.pools()).len() == 0,
                forall|w: usize| #[trigger] answers@.dom().contains(w) ==> (w < self.pools().len() && forall|x: Constraint|
                    #[trigger] self.pools()[w as int].contains(x) ==> x.holds(code) == answers@[w]),
                self.asked() == old(self).asked(),
                self.replies() == old(self).replies(),
                self.answers_received() == old(self).answers_received(),
                self.level() == old(self).level(),
                self.oracle() == old(self).oracle(),
            ensures
                t == 0 ==> forall|v: int| 0 <= v < start.len() ==> (#[trigger] elims(start[v], code)).0 == 0,
                t < 3 ==> no_gain(self.pools(), code),
            decreases 3 - t,
        {
            if t >= 3 {
                break;
            }
            proof {
                assert forall|v: int| 0 <= v < self.verifiers@.len() implies #[trigger] self.verifiers@[v]@.len() <= 128 by {}
                assert(deep(self.verifiers@) == self.pools());
            }
            let v_idx = match best_verifier_for_question(&self.verifiers, code) {
                Some(i) => i,
                None => {
                    break;
                },
            };
            let ghost before = self.pools();
            proof {
                assert(!answers@.dom().contains(v_idx)) by {
                    if answers@.dom().contains(v_idx) {
                        lemma_uniform_no_elims(before[v_idx as int], code, answers@[v_idx]);
                    }
                }
            }
            let answer = match self.question(code, v_idx) {
                Ok(a) => a,
                Err(e) => {
                    proof {
                        assert(steps_follow(old(self).pools(), code, old(self).oracle(), steps));
                    }
                    return Err(e);
                },
            };
            proof {
                let ns = steps.push((v_idx, answer));
                assert(ns.drop_last() =~= steps);
                assert forall|cs: Seq<Constraint>|
                    drawn_from(start, cs) && valid_assignment(cs) && agrees(cs, code, answers@.insert(v_idx, answer)) implies #[trigger] drawn_from(
                    self.pools(),
                    cs,
                ) by {
                    assert(agrees(cs, code, answers@)) by {
                        assert forall|w: usize| #[trigger] answers@.dom().contains(w) implies w < cs.len() && cs[w as int].holds(code)
                            == answers@[w] by {
                            assert(answers@.insert(v_idx, answer).dom().contains(w));
                        }
                    }
                    assert(drawn_from(before, cs));
                    assert(answers@.insert(v_idx, answer).dom().contains(v_idx));
                }
                steps = ns;
                lemma_shrinks_trans(start, before, self.pools());
                assert forall|w: usize| #[trigger] answers@.insert(v_idx, answer).dom().contains(w) implies (w
                    < self.pools().len() && forall|x: Constraint| #[trigger] self.pools()[w as int].contains(x) ==> x.holds(code)
                    == answers@.insert(v_idx, answer)[w]) by {
                    if w != v_idx {
                        assert forall|x: Constraint| #[trigger] self.pools()[w as int].contains(x) implies x.holds(code)
                            == answers@[w] by {
                            assert(before[w as int].contains(x));
                        }
                    }
                }
            }
            answers.insert(v_idx, answer);
            t = t + 1;
        }
        if answers.len() > 0 {
            let ghost rs = self.replies();
            let ghost m = answers@;
            self.questions.push(code);
            self.answers.push(answers);
            self.received = Ghost(self.received@ + m.len());
            proof {
                assert(self.replies() =~= rs.push(m));
                assert(self.replies().drop_last() =~= rs);
                assert(sum_sizes(self.replies()) == sum_sizes(rs) + m.len());
            }
        }
        proof {
            assert(steps_follow(old(self).pools(), code, old(self).oracle(), steps));
        }
        Ok(())
    }

    /// The code pinned down by the first constraint of each pool, or the codes they leave.
    fn determined_code(&self) -> (r: Result<Code, SolverError>)
        requires
            empty_pools(self.pools()).len() == 0,
        ensures
            r is Ok ==> inter_of(firsts(self.pools())).size() == 1 && r->Ok_0 == inter_of(firsts(self.pools())).members()[0],
            r is Err ==> inter_of(firsts(self.pools())).size() != 1 && r->Err_0 is MultipleSolutions
                && r->Err_0->MultipleSolutions_0@ == inter_of(firsts(self.pools())).members(),
    {
        let ghost ps = self.pools();
        proof {
            lemma_no_empty(ps);
        }
        let mut known: Vec<Constraint> = Vec::new();
        let mut i: usize = 0;
        while i < self.verifiers.len()
            invariant
                ps == self.pools(),
                forall|v: int| 0 <= v < ps.len() ==> #[trigger] ps[v].len() > 0,
                i <= self.verifiers@.len(),
                known@ == firsts(ps).subrange(0, i as int),
            decreases self.verifiers@.len() - i,
        {
            proof {
                assert(ps[i as int] == self.verifiers@[i as int]@);
            }
            known.push(self.verifiers[i][0]);
            i = i + 1;
            assert(known@ =~= firsts(ps).subrange(0, i as int));
        }
        assert(known@ =~= firsts(ps));
        let cons = Constraint::inter(&known);
        match cons.solution() {
            Some(s) => Ok(s),
            None => Err(SolverError::MultipleSolutions(cons.solutions())),
        }
    }

    /// Plays rounds until the code is known. A round that asks nothing means no question can tell
    /// the remaining constraints of any pool apart: they all accept the same codes, and the code
    /// that the first constraint of each pool pins is returned.
    pub fn solve(&mut self) -> (r: Result<Code, SolverError>)
        requires
            old(self).wf(),
        ensures
            final(self).wf(),
            shrinks(old(self).pools(), final(self).pools()),
            settled(final(self).pools()),
            old(self).asked().len() <= final(self).asked().len() <= old(self).asked().len() + total_size(old(self).pools()),
            final(self).asked().subrange(0, old(self).asked().len() as int) == old(self).asked(),
            final(self).replies().subrange(0, old(self).replies().len() as int) == old(self).replies(),
            oracle_gave(old(self).oracle(), final(self).asked(), final(self).replies(), old(self).replies().len() as int),
            r is Ok ==> forall|cs: Seq<Constraint>|
                drawn_from(old(self).pools(), cs) && valid_assignment(cs) && agrees_from(
                    cs,
                    final(self).asked(),
                    final(self).replies(),
                    old(self).replies().len() as int,
                ) ==> #[trigger] drawn_from(final(self).pools(), cs),
            all_known(settle(old(self).pools())) && old(self).pools().len() > 0 ==> {
                &&& r == Ok::<Code, SolverError>(inter_of(firsts(settle(old(self).pools()))).members()[0])
                &&& final(self).asked() == old(self).asked()
                &&& final(self).replies() == old(self).replies()
            },
            r is Ok ==> all_known(final(self).pools()) || uniform(final(self).pools()),
            r is Ok ==> empty_pools(final(self).pools()).len() == 0 && inter_of(firsts(final(self).pools())).size() == 1
                && r->Ok_0 == inter_of(firsts(final(self).pools())).members()[0],
            r is Ok ==> r->Ok_0.wf(),
            r is Ok && all_known(final(self).pools()) && final(self).pools().len() > 0 ==> valid_assignment(
                firsts(final(self).pools()),
            ),
            r is Ok ==> forall|v: int| 0 <= v < final(self).pools().len() ==> #[trigger] final(self).pools()[v][0].holds(r->Ok_0),
            r is Err ==> match r->Err_0 {
                SolverError::Impossible(vs) => vs@ == empty_pools(final(self).pools()) && vs@.len() > 0,
                SolverError::MultipleSolutions(cs) => cs@ == inter_of(firsts(final(self).pools())).members()
                    && cs@.len() != 1 && all_known(final(self).pools()) && empty_pools(final(self).pools()).len() == 0,
            },
            final(self).level() == old(self).level(),
            final(self).oracle() == old(self).oracle(),
    {
        let ghost start = self.pools();
        let ghost a0 = self.questions@.len() as int;
        let res0 = self.eliminate();
        proof {
            lemma_total_shrinks(start, self.pools());
        }
        match res0 {
            Ok(()) => {},
            Err(e) => {
                proof {
                    if all_known(settle(start)) && start.len() > 0 {
                        lemma_known_not_empty(self.pools());
                    }
                }
                return Err(e);
            },
        }
        proof {
            assert(self.asked().subrange(0, a0) =~= old(self).asked());
            assert(self.replies().subrange(0, a0) =~= old(self).replies());
            assert forall|cs: Seq<Constraint>|
                drawn_from(start, cs) && valid_assignment(cs) && agrees_from(cs, self.asked(), self.replies(), a0)
                    implies #[trigger] drawn_from(self.pools(), cs) by {}
        }
        loop
            invariant
                self.wf(),
                start == old(self).pools(),
                a0 == old(self).asked().len(),
                a0 == old(self).replies().len(),
                shrinks(start, self.pools()),
                empty_pools(self.pools()).len() == 0,
                settled(self.pools()),
                self.level() == old(self).level(),
                self.oracle() == old(self).oracle(),
                a0 <= self.asked().len(),
                self.asked().len() - a0 + total_size(self.pools()) <= total_size(start),
                self.asked().subrange(0, a0) == old(self).asked(),
                self.replies().subrange(0, a0) == old(self).replies(),
                oracle_gave(self.oracle(), self.asked(), self.replies(), a0),
                forall|cs: Seq<Constraint>|
                    drawn_from(start, cs) && valid_assignment(cs) && agrees_from(cs, self.asked(), self.replies(), a0)
                        ==> #[trigger] drawn_from(self.pools(), cs),
                all_known(settle(start)) && start.len() > 0 ==> self.pools() == settle(start) && self.asked()
                    == old(self).asked() && self.replies() == old(self).replies(),
            decreases total_size(self.pools()),
        {
            proof {
                assert(deep(self.verifiers@) == self.pools());
            }
            let c = best_question(&self.verifiers);
            let before = self.questions.len();
            let ghost prev = self.pools();
            let ghost asked0 = self.asked();
            let ghost replies0 = self.replies();
            let ghost o = self.oracle();
            match self.round(c) {
                Ok(()) => {},
                Err(e) => {
                    proof {
                        lemma_shrinks_trans(start, prev, self.pools());
                        if all_known(settle(start)) && start.len() > 0 {
                            lemma_known_no_gain(prev, c);
                            let steps = choose|steps: Seq<(usize, bool)>|
                                #[trigger] steps_follow(prev, c, o, steps) && steps.len() <= 3 && (exists|v: usize, a: bool|
                                    best_verifier(after_steps(prev, c, steps), c, v as int) && o.gives(v, c, a)
                                        && self.pools() == #[trigger] settle(answered(after_steps(prev, c, steps), v as int, c, a)));
                            if steps.len() > 0 {
                                lemma_first_step(prev, c, o, steps);
                            }
                        }
                    }
                    return Err(e);
                },
            }
            proof {
                lemma_shrinks_trans(start, prev, self.pools());
                let steps = choose|steps: Seq<(usize, bool)>|
                    #[trigger] steps_follow(prev, c, o, steps) && steps.len() <= 3 && round_done(
                        prev,
                        c,
                        steps,
                        self.pools(),
                        asked0,
                        replies0,
                        self.asked(),
                        self.replies(),
                    );
                if all_known(settle(start)) && start.len() > 0 {
                    lemma_known_no_gain(prev, c);
                    if steps.len() > 0 {
                        lemma_first_step(prev, c, o, steps);
                    }
                }
                if steps.len() > 0 {
                    lemma_steps_gave(prev, c, o, steps);
                    assert(self.asked().subrange(0, a0) =~= asked0.subrange(0, a0));
                    assert(self.replies().subrange(0, a0) =~= replies0.subrange(0, a0));
                    assert forall|rr: int, v: usize|
                        a0 <= rr < self.replies().len() && #[trigger] self.replies()[rr].dom().contains(v) implies o.gives(
                        v,
                        self.asked()[rr],
                        self.replies()[rr][v],
                    ) by {
                        if rr < replies0.len() {
                            assert(self.replies()[rr] == replies0[rr]);
                            assert(self.asked()[rr] == asked0[rr]);
                        }
                    }
                    assert forall|cs: Seq<Constraint>|
                        drawn_from(start, cs) && valid_assignment(cs) && agrees_from(cs, self.asked(), self.replies(), a0)
                            implies #[trigger] drawn_from(self.pools(), cs) by {
                        assert forall|rr: int| a0 <= rr < replies0.len() implies #[trigger] agrees(cs, asked0[rr], replies0[rr]) by {
                            assert(self.replies()[rr] == replies0[rr]);
                            assert(self.asked()[rr] == asked0[rr]);
                            assert(agrees(cs, self.asked()[rr], self.replies()[rr]));
                        }
                        assert(agrees_from(cs, asked0, replies0, a0));
                        assert(drawn_from(prev, cs));
                        let last = replies0.len() as int;
                        assert(agrees(cs, self.asked()[last], self.replies()[last]));
                    }
                }
            }
            match self.has_solution() {
                Ok(Some(s)) => {
                    proof {
                        lemma_known_members(self.pools());
                        lemma_firsts_accept(self.pools());
                        if self.pools().len() > 0 {
                            lemma_known_pools_valid(self.pools());
                        }
                    }
                    return Ok(s);
                },
                Ok(None) => {},
                Err(e) => {
                    proof {
                        lemma_known_members(self.pools());
                        if all_known(settle(start)) && start.len() > 0 {
                            lemma_known_pools_valid(self.pools());
                        }
                    }
                    return Err(e);
                },
            }
            if self.questions.len() == before {
                proof {
                    lemma_no_gain_uniform(self.pools(), c);
                    lemma_uniform_unique(self.pools());
                }
                let r = self.determined_code();
                proof {
                    lemma_known_members(self.pools());
                    lemma_firsts_accept(self.pools());
                }
                return r;
            }
        }
    }
}

/// A copy of a pool.
fn copy_pool(v: &Vec<Constraint>) -> (r: Vec<Constraint>)
    ensures
        r@ == v@,
{
    let mut r: Vec<Constraint> = Vec::new();
    let mut i: usize = 0;
    while i < v.len()
        invariant
            i <= v@.len(),
            r@ == v@.subrange(0, i as int),
        decreases v@.len() - i,
    {
        r.push(v[i]);
        i = i + 1;
        assert(r@ =~= v@.subrange(0, i as int));
    }
    assert(r@ =~= v@);
    r
}

proof fn lemma_sum_prefix(s: Seq<Map<usize, bool>>, i: int)
    requires
        0 <= i <= s.len(),
    ensures
        sum_sizes(s.subrange(0, i)) <= sum_sizes(s),
    decreases s.len(),
{
    if i < s.len() {
        assert(s.drop_last().subrange(0, i) =~= s.subrange(0, i));
        lemma_sum_prefix(s.drop_last(), i);
    } else {
        assert(s.subrange(0, i) =~= s);
    }
}

proof fn lemma_total_prefix(s: Seq<Seq<Constraint>>, i: int)
    requires
        0 <= i <= s.len(),
    ensures
        total_size(s.subrange(0, i)) <= total_size(s),
    decreases s.len(),
{
    if i < s.len() {
        assert(s.drop_last().subrange(0, i) =~= s.subrange(0, i));
        lemma_total_prefix(s.drop_last(), i);
    } else {
        assert(s.subrange(0, i) =~= s);
    }
}

/// A pool whose constraints all agree on `c` expects no elimination from `c`.
proof fn lemma_uniform_no_elims(pool: Seq<Constraint>, c: Code, a: bool)
    requires
        forall|x: Constraint| #[trigger] pool.contains(x) ==> x.holds(c) == a,
    ensures
        elims(pool, c).0 == 0,
{
    lemma_uniform_accept(pool, c, a);
    lemma_elims_zero(pool, c);
}

proof fn lemma_elims_zero(pool: Seq<Constraint>, c: Code)
    requires
        n_accept(pool, c) == pool.len() || n_accept(pool, c) == 0,
    ensures
        elims(pool, c).0 == 0,
{
    let n1 = n_accept(pool, c) as int;
    let n0 = pool.len() - n1;
    if n1 == 0 {
        assert(2 * n0 * n1 == 0) by (nonlinear_arith)
            requires
                n1 == 0,
        ;
    } else {
        assert(2 * n0 * n1 == 0) by (nonlinear_arith)
            requires
                n0 == 0,
        ;
    }
}

proof fn lemma_uniform_accept(pool: Seq<Constraint>, c: Code, a: bool)
    requires
        forall|x: Constraint| #[trigger] pool.contains(x) ==> x.holds(c) == a,
    ensures
        n_accept(pool, c) == if a { pool.len() } else { 0 },
    decreases pool.len(),
{
    if pool.len() > 0 {
        let p = pool.drop_last();
        assert forall|x: Constraint| #[trigger] p.contains(x) implies x.holds(c) == a by {
            let k = choose|k: int| 0 <= k < p.len() && p[k] == x;
            assert(pool[k] == x);
            assert(pool.contains(x));
        }
        lemma_uniform_accept(p, c, a);
        assert(pool.contains(pool[pool.len() - 1]));
    }
}

/// A pool that expects some elimination from `c` has a constraint accepting `c` and one rejecting it.
proof fn lemma_split_answers(pool: Seq<Constraint>, c: Code)
    requires
        elims(pool, c).0 > 0,
    ensures
        exists|k: int| 0 <= k < pool.len() && pool[k].holds(c),
        exists|k: int| 0 <= k < pool.len() && !pool[k].holds(c),
{
    if forall|k: int| 0 <= k < pool.len() ==> pool[k].holds(c) {
        assert forall|x: Constraint| #[trigger] pool.contains(x) implies x.holds(c) == true by {}
        lemma_uniform_accept(pool, c, true);
        lemma_elims_zero(pool, c);
    }
    if forall|k: int| 0 <= k < pool.len() ==> !pool[k].holds(c) {
        assert forall|x: Constraint| #[trigger] pool.contains(x) implies x.holds(c) == false by {}
        lemma_uniform_accept(pool, c, false);
        lemma_elims_zero(pool, c);
    }
}

proof fn lemma_empty_upto(pools: Seq<Seq<Constraint>>, n: int)
    requires
        0 <= n <= pools.len(),
        empty_upto(pools, n).len() == 0,
    ensures
        forall|v: int| 0 <= v < n ==> #[trigger] pools[v].len() > 0,
    decreases n,
{
    if n > 0 {
        lemma_empty_upto(pools, n - 1);
    }
}

/// Without empty pools, every pool has a first constraint.
proof fn lemma_no_empty(pools: Seq<Seq<Constraint>>)
    requires
        empty_pools(pools).len() == 0,
    ensures
        forall|v: int| 0 <= v < pools.len() ==> #[trigger] pools[v].len() > 0,
{
    lemma_empty_upto(pools, pools.len() as int);
}

/// Once every pool of a settled state holds one constraint, those constraints form a globally
/// valid assignment: they come from distinct cards and pin down exactly one code.
pub proof fn lemma_known_pools_valid(pools: Seq<Seq<Constraint>>)
    requires
        pools.len() > 0,
        settled(pools),
        all_known(pools),
    ensures
        valid_assignment(firsts(pools)),
        distinct_tags(firsts(pools)),
{
    assert(pools[0].len() == 1);
    assert(possible(pools, 0, pools[0][0]));
    let cs = choose|cs: Seq<Constraint>| drawn_from(pools, cs) && valid_assignment(cs) && #[trigger] cs[0] == pools[0][0];
    assert forall|v: int| 0 <= v < cs.len() implies cs[v] == firsts(pools)[v] by {
        assert(pools[v].len() == 1);
        assert(pools[v].contains(cs[v]));
    }
    assert(cs =~= firsts(pools));
}

/// Pools of one constraint each have no empty pool.
proof fn lemma_known_not_empty(pools: Seq<Seq<Constraint>>)
    requires
        all_known(pools),
    ensures
        empty_pools(pools).len() == 0,
{
    lemma_known_not_empty_upto(pools, pools.len() as int);
}

proof fn lemma_known_not_empty_upto(pools: Seq<Seq<Constraint>>, n: int)
    requires
        all_known(pools),
        0 <= n <= pools.len(),
    ensures
        empty_upto(pools, n).len() == 0,
    decreases n,
{
    if n > 0 {
        lemma_known_not_empty_upto(pools, n - 1);
        assert(pools[n - 1].len() == 1);
    }
}

/// A pool of one constraint expects no elimination.
proof fn lemma_known_no_gain(pools: Seq<Seq<Constraint>>, code: Code)
    requires
        all_known(pools),
    ensures
        no_gain(pools, code),
{
    assert forall|v: int| 0 <= v < pools.len() implies (#[trigger] elims(pools[v], code)).0 == 0 by {
        assert(pools[v].len() == 1);
        assert(pools[v].drop_last().len() == 0);
        assert(n_accept(pools[v].drop_last(), code) == 0);
        lemma_elims_zero(pools[v], code);
    }
}

/// The first step of a round asked the best verifier of the starting pools.
proof fn lemma_first_step<V: Verifier>(pools: Seq<Seq<Constraint>>, code: Code, oracle: V, steps: Seq<(usize, bool)>)
    requires
        steps.len() > 0,
        steps_follow(pools, code, oracle, steps),
    ensures
        best_verifier(pools, code, steps[0].0 as int),
    decreases steps.len(),
{
    if steps.len() > 1 {
        lemma_first_step(pools, code, oracle, steps.drop_last());
        assert(steps.drop_last()[0] == steps[0]);
    } else {
        assert(steps.drop_last().len() == 0);
    }
}

/// The answers a round records are answers the oracle may give.
proof fn lemma_steps_gave<V: Verifier>(pools: Seq<Seq<Constraint>>, code: Code, oracle: V, steps: Seq<(usize, bool)>)
    requires
        steps_follow(pools, code, oracle, steps),
    ensures
        forall|v: usize| #[trigger] steps_map(steps).dom().contains(v) ==> oracle.gives(v, code, steps_map(steps)[v]),
    decreases steps.len(),
{
    if steps.len() > 0 {
        let p = steps.drop_last();
        lemma_steps_gave(pools, code, oracle, p);
        assert(steps_follow(pools, code, oracle, p) && oracle.gives(steps.last().0, code, steps.last().1));
        assert forall|v: usize| #[trigger] steps_map(steps).dom().contains(v) implies oracle.gives(v, code, steps_map(steps)[v]) by {
            if v != steps.last().0 {
                assert(steps_map(p).dom().contains(v));
            }
        }
    }
}

/// A pool that expects no elimination from `c` agrees on `c` throughout.
proof fn lemma_no_gain_agree(pool: Seq<Constraint>, c: Code)
    requires
        elims(pool, c).0 == 0,
        pool.len() > 0,
    ensures
        forall|j: int| 0 <= j < pool.len() ==> #[trigger] pool[j].holds(c) == pool[0].holds(c),
{
    let n1 = n_accept(pool, c) as int;
    let n0 = pool.len() - n1;
    lemma_accept_count(pool, c);
    assert(n0 == 0 || n1 == 0) by (nonlinear_arith)
        requires
            2 * n0 * n1 == 0,
    ;
}

proof fn lemma_accept_count(pool: Seq<Constraint>, c: Code)
    ensures
        n_accept(pool, c) <= pool.len(),
        n_accept(pool, c) == 0 ==> forall|j: int| 0 <= j < pool.len() ==> !(#[trigger] pool[j].holds(c)),
        n_accept(pool, c) == pool.len() ==> forall|j: int| 0 <= j < pool.len() ==> #[trigger] pool[j].holds(c),
    decreases pool.len(),
{
    if pool.len() > 0 {
        let p = pool.drop_last();
        lemma_accept_count(p, c);
        assert forall|j: int| 0 <= j < p.len() implies #[trigger] pool[j] == p[j] by {}
    }
}

/// When the best question expects no elimination from any verifier, no question does, and every
/// pool's constraints accept the same codes.
proof fn lemma_no_gain_uniform(ps: Seq<Seq<Constraint>>, c: Code)
    requires
        no_gain(ps, c),
        forall|i: int| 0 <= i < 125 ==> !rat_lt(score(ps, c), #[trigger] score(ps, code_at(i))),
    ensures
        uniform(ps),
{
    let es = elim_seq(ps, c);
    assert forall|v: int| 0 <= v < es.len() implies (#[trigger] es[v]).0 == 0 && es[v].1 > 0 by {}
    lemma_top_zero(es, 3);
    let b = score(ps, c);
    lemma_score_pos(ps, c);
    assert forall|v: int, j: int, i: int|
        0 <= v < ps.len() && 0 <= j < ps[v].len() && 0 <= i < 125 implies #[trigger] ps[v][j].has(i) == ps[v][0].has(i) by {
        let d = code_at(i);
        lemma_idx_code_at(i);
        let sc = score(ps, d);
        lemma_score_pos(ps, d);
        lemma_score_is_best_three(ps, d);
        let e = elims(ps[v], d);
        let sel = seq![v];
        assert(selection(sel, ps.len() as int, 3));
        assert(sel.drop_last().len() == 0);
        assert(sel.last() == v);
        assert(sel_sum(elim_seq(ps, d), sel.drop_last()) == (0int, 1int));
        assert(elim_seq(ps, d)[v] == e);
        assert(sel_sum(elim_seq(ps, d), sel) == rat_add((0int, 1int), e));
        assert(rat_add((0int, 1int), e) == (e.0, e.1));
        assert(!rat_lt(sc, (e.0, e.1)));
        assert(!rat_lt(b, sc));
        lemma_accept_count(ps[v], d);
        let n1 = n_accept(ps[v], d) as int;
        let n0 = ps[v].len() - n1;
        assert(2 * n0 * n1 >= 0) by (nonlinear_arith)
            requires
                n0 >= 0,
                n1 >= 0,
        ;
        assert(e.0 == 0) by (nonlinear_arith)
            requires
                e.0 * sc.1 <= sc.0 * e.1,
                sc.0 * b.1 <= 0 * sc.1,
                b.1 > 0,
                sc.1 > 0,
                e.1 > 0,
                e.0 >= 0,
        {
            assert(sc.0 <= 0);
            assert(sc.0 * e.1 <= 0);
        }
        lemma_no_gain_agree(ps[v], d);
        assert(ps[v][j].holds(d) == ps[v][0].holds(d));
        assert(d.idx() == i);
    }
}

/// Settled pools whose constraints each accept the same codes as their pool's first constraint
/// pin down exactly one code with those first constraints.
proof fn lemma_uniform_unique(ps: Seq<Seq<Constraint>>)
    requires
        settled(ps),
        ps.len() > 0,
        empty_pools(ps).len() == 0,
        uniform(ps),
    ensures
        inter_of(firsts(ps)).size() == 1,
{
    lemma_no_empty(ps);
    assert(possible(ps, 0, ps[0][0]));
    let cs = choose|cs: Seq<Constraint>| drawn_from(ps, cs) && valid_assignment(cs) && #[trigger] cs[0] == ps[0][0];
    let fs = firsts(ps);
    assert forall|k: int, i: int| 0 <= k < cs.len() && 0 <= i < 125 implies #[trigger] cs[k].has(i) == fs[k].has(i) by {
        assert(ps[k].contains(cs[k]));
        let j = choose|j: int| 0 <= j < ps[k].len() && ps[k][j] == cs[k];
        assert(ps[k][j].has(i) == ps[k][0].has(i));
    }
    crate::constraint::lemma_meet_same(cs, fs, cs.len() as int);
    crate::constraint::lemma_same_bits(inter_of(cs).value, inter_of(fs).value, 125);
}

/// The code pinned down by the first constraints of the pools is accepted by each of them.
proof fn lemma_firsts_accept(pools: Seq<Seq<Constraint>>)
    requires
        inter_of(firsts(pools)).size() == 1,
    ensures
        forall|v: int| 0 <= v < pools.len() ==> #[trigger] pools[v][0].holds(inter_of(firsts(pools)).members()[0]),
{
    crate::constraint::lemma_unique_solution_accepted(firsts(pools));
    assert forall|v: int| 0 <= v < pools.len() implies #[trigger] pools[v][0].holds(inter_of(firsts(pools)).members()[0]) by {
        assert(firsts(pools)[v] == pools[v][0]);
    }
}

/// Codes listed as members of a constraint are valid codes.
proof fn lemma_known_members(pools: Seq<Seq<Constraint>>)
    ensures
        forall|k: int| 0 <= k < inter_of(firsts(pools)).members().len() ==> (#[trigger] inter_of(firsts(pools)).members()[k]).wf(),
        inter_of(firsts(pools)).members().len() == inter_of(firsts(pools)).size(),
{
    crate::constraint::lemma_members_valid(inter_of(firsts(pools)).value, 125);
    crate::constraint::lemma_members_len(inter_of(firsts(pools)).value, 125);
}

} // verus!
