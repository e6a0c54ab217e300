use vstd::prelude::*;
use crate::constraint::{Constraint, MEMBERS};
use crate::cards::{card_from_id, card_matches, card_names};

verus! {

/// A card: its constraints, each with a display name.
#[derive(Clone, Debug)]
pub struct Card {
    pub constraints: Vec<(String, Constraint)>,
}

/// The constraints of a sequence of named constraints.
pub open spec fn bare(cs: Seq<(String, Constraint)>) -> Seq<Constraint> {
    cs.map_values(|p: (String, Constraint)| p.1)
}

impl Card {
    /// The card's constraints, in order.
    pub open spec fn view(&self) -> Seq<Constraint> {
        bare(self.constraints@)
    }

    pub fn new(constraints: Vec<(String, Constraint)>) -> (r: Card)
        ensures
            r.constraints@ == constraints@,
    {
        Card { constraints }
    }

    /// The card's constraints without their names.
    pub fn constraints(&self) -> (r: Vec<Constraint>)
        ensures
            r@ == self.view(),
    {
        let mut r: Vec<Constraint> = Vec::new();
        let mut i: usize = 0;
        while i < self.constraints.len()
            invariant
                i <= self.constraints@.len(),
                r@ == bare(self.constraints@.subrange(0, i as int)),
            decreases self.constraints@.len() - i,
        {
            r.push(self.constraints[i].1);
            i = i + 1;
            assert(bare(self.constraints@.subrange(0, i as int)) =~= bare(
                self.constraints@.subrange(0, i - 1),
            ).push(self.constraints@[i - 1].1));
        }
        assert(self.constraints@.subrange(0, i as int) =~= self.constraints@);
        r
    }
}

/// How cards are turned into verifiers.
#[derive(Clone, Copy, Debug, PartialEq, Eq, Structural)]
pub enum ProblemMode {
    /// One card per verifier.
    Normal,
    /// Two consecutive cards per verifier.
    Extreme,
    /// Every verifier may draw from any card.
    Nightmare,
}

/// A puzzle: its cards, in verifier order, and its mode.
#[derive(Debug)]
pub struct Problem {
    pub cards: Vec<Card>,
    pub mode: ProblemMode,
}

/// Number of constraints over all pools (or cards).
pub open spec fn total_size(pools: Seq<Seq<Constraint>>) -> nat
    decreases pools.len(),
{
    if pools.len() == 0 {
        0
    } else {
        total_size(pools.drop_last()) + pools.last().len()
    }
}

/// The same set of codes with group tag `g`.
pub open spec fn tagged(c: Constraint, g: int) -> Constraint {
    Constraint { value: (c.value & MEMBERS) | ((g as u128) << 125u128) }
}

/// Every constraint of `s`, with group tag `g`.
pub open spec fn tag_all(s: Seq<Constraint>, g: int) -> Seq<Constraint> {
    s.map_values(|c: Constraint| tagged(c, g))
}

/// The constraints of the first `n` cards, each tagged with its card's index.
pub open spec fn concat_tagged(cards: Seq<Seq<Constraint>>, n: int) -> Seq<Constraint>
    decreases n,
{
    if n <= 0 {
        Seq::empty()
    } else {
        concat_tagged(cards, n - 1) + tag_all(cards[n - 1], n - 1)
    }
}

/// Cards `2j` and `2j + 1` (when there is one), concatenated.
pub open spec fn paired(cards: Seq<Seq<Constraint>>, j: int) -> Seq<Constraint> {
    if 2 * j + 1 < cards.len() {
        cards[2 * j] + cards[2 * j + 1]
    } else {
        cards[2 * j]
    }
}

/// The starting pool of each verifier, as the mode maps cards to verifiers.
pub open spec fn initial_pools(mode: ProblemMode, cards: Seq<Seq<Constraint>>) -> Seq<Seq<Constraint>> {
    match mode {
        ProblemMode::Normal => Seq::new(cards.len(), |i: int| tag_all(cards[i], i)),
        ProblemMode::Extreme => Seq::new(((cards.len() + 1) / 2) as nat, |j: int| tag_all(paired(cards, j), j)),
        ProblemMode::Nightmare => Seq::new(cards.len(), |i: int| concat_tagged(cards, cards.len() as int)),
    }
}

impl Problem {
    /// Number of constraints over all cards.
    pub open spec fn size(&self) -> nat {
        total_size(self.card_views())
    }

    /// The constraints of each card, in order.
    pub open spec fn card_views(&self) -> Seq<Seq<Constraint>> {
        self.cards@.map_values(|c: Card| c.view())
    }

    /// The problem made of the catalog cards `ids`, in order.
    pub fn from_card_ids(mode: ProblemMode, ids: Vec<u8>) -> (r: Problem)
        requires
            forall|i: int| 0 <= i < ids@.len() ==> 1 <= #[trigger] ids@[i] <= 48,
        ensures
            r.mode == mode,
            r.cards@.len() == ids@.len(),
            forall|i: int| 0 <= i < ids@.len() ==> card_matches(#[trigger] r.cards@[i].view(), ids@[i]),
            forall|i: int| 0 <= i < ids@.len() ==> card_names(#[trigger] r.cards@[i].constraints@, ids@[i]),
    {
        let mut cards: Vec<Card> = Vec::new();
        let mut i: usize = 0;
        while i < ids.len()
            invariant
                i <= ids@.len(),
                forall|k: int| 0 <= k < ids@.len() ==> 1 <= #[trigger] ids@[k] <= 48,
                cards@.len() == i,
                forall|k: int| 0 <= k < i ==> card_matches(#[trigger] cards@[k].view(), ids@[k]),
                forall|k: int| 0 <= k < i ==> card_names(#[trigger] cards@[k].constraints@, ids@[k]),
            decreases ids@.len() - i,
        {
            cards.push(card_from_id(ids[i]));
            i = i + 1;
        }
        Problem { cards, mode }
    }

    pub fn from_cards(mode: ProblemMode, cards: Vec<Card>) -> (r: Problem)
        ensures
            r.cards@ == cards@,
            r.mode == mode,
    {
        Problem { cards, mode }
    }
}

/// Two different cards hold no more constraints together than all cards.
pub proof fn lemma_total_pair(cards: Seq<Seq<Constraint>>, i: int, k: int)
    requires
        0 <= i < cards.len(),
        0 <= k < cards.len(),
    ensures
        cards[i].len() <= total_size(cards),
        i != k ==> cards[i].len() + cards[k].len() <= total_size(cards),
    decreases cards.len(),
{
    let p = cards.drop_last();
    let last = cards.len() - 1;
    if i < last && k < last {
        lemma_total_pair(p, i, k);
        assert(p[i] == cards[i] && p[k] == cards[k]);
    } else if i < last {
        lemma_total_pair(p, i, i);
        assert(p[i] == cards[i]);
    } else if k < last {
        lemma_total_pair(p, k, k);
        assert(p[k] == cards[k]);
    }
}

/// The tagged concatenation of the first `n` cards has as many constraints as they hold.
pub proof fn lemma_concat_len(cards: Seq<Seq<Constraint>>, n: int)
    requires
        0 <= n <= cards.len(),
    ensures
        concat_tagged(cards, n).len() == total_size(cards.subrange(0, n)),
    decreases n,
{
    if n > 0 {
        lemma_concat_len(cards, n - 1);
        assert(cards.subrange(0, n).drop_last() =~= cards.subrange(0, n - 1));
    }
}

} // verus!
