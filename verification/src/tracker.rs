//! The record of the best solution found.
//!
//! A population can get worse from one generation to the next, so the best
//! solution of a whole run is held apart from it. The tracker takes offers of
//! a fitness and a permutation; a higher fitness is better.
use vstd::prelude::*;

verus! {

/// A fitness and the permutation that reached it.
#[derive(Clone, Debug, PartialEq, Eq)]
pub struct BestRecord {
    /// The fitness of the permutation; higher is better.
    pub fitness: usize,
    /// The permutation.
    pub permutation: Vec<usize>,
}

/// What a tracker holds: nothing, or a fitness and a permutation.
pub type Held = Option<(usize, Seq<usize>)>;

/// What a tracker that holds `held` holds after the offer of `fitness` and
/// `permutation`: the offer, if nothing was held or the offer is strictly
/// better; else what it held.
pub open spec fn offer_spec(held: Held, fitness: usize, permutation: Seq<usize>) -> Held {
    match held {
        None => Some((fitness, permutation)),
        Some((best, _)) => if fitness > best {
            Some((fitness, permutation))
        } else {
            held
        },
    }
}

/// What a tracker that holds `held` holds after the offers `offers`, taken in
/// order.
pub open spec fn after_offers(held: Held, offers: Seq<(usize, Seq<usize>)>) -> Held
    decreases offers.len(),
{
    if offers.len() == 0 {
        held
    } else {
        let last = offers.last();
        offer_spec(after_offers(held, offers.drop_last()), last.0, last.1)
    }
}

/// `later` is at least as good as `earlier`: where `earlier` holds a record,
/// `later` holds one whose fitness is not lower.
pub open spec fn not_worse(earlier: Held, later: Held) -> bool {
    earlier matches Some((before, _)) ==> later matches Some((after, _)) && after >= before
}

/// The fitness that `held` holds, and 0 where it holds nothing.
pub open spec fn fitness_of(held: Held) -> usize {
    match held {
        Some((fitness, _)) => fitness,
        None => 0,
    }
}

/// An offer never makes the record worse, and leaves a record held.
pub proof fn lemma_offer_monotone(held: Held, fitness: usize, permutation: Seq<usize>)
    ensures
        offer_spec(held, fitness, permutation) is Some,
        not_worse(held, offer_spec(held, fitness, permutation)),
        fitness_of(offer_spec(held, fitness, permutation)) >= fitness,
{
}

/// The best fitness never decreases over a run: what is held after the first
/// `i` offers is not better than what is held after the first `j`, for
/// `i <= j`, whatever the fitness of the offers in between.
pub proof fn lemma_best_is_monotone(held: Held, offers: Seq<(usize, Seq<usize>)>, i: int, j: int)
    requires
        0 <= i <= j <= offers.len(),
    ensures
        not_worse(after_offers(held, offers.take(i)), after_offers(held, offers.take(j))),
    decreases j - i,
{
    if i < j {
        lemma_best_is_monotone(held, offers, i, j - 1);
        assert(offers.take(j).drop_last() == offers.take(j - 1));
        let last = offers.take(j).last();
        lemma_offer_monotone(after_offers(held, offers.take(j - 1)), last.0, last.1);
    }
}

/// After offers to an empty tracker, the fitness held is that of one of the
/// offers, and no offer had a higher one.
pub proof fn lemma_best_is_maximum(offers: Seq<(usize, Seq<usize>)>)
    requires
        offers.len() > 0,
    ensures
        after_offers(None, offers) matches Some((best, permutation)) && (forall|k: int|
            0 <= k < offers.len() ==> (#[trigger] offers[k]).0 <= best) && (exists|k: int|
            0 <= k < offers.len() && #[trigger] offers[k] == (best, permutation)),
    decreases offers.len(),
{
    let front = offers.drop_last();
    let last = offers.last();
    if front.len() == 0 {
        assert(after_offers(None, front) is None);
        assert(offers[offers.len() - 1] == last);
    } else {
        lemma_best_is_maximum(front);
        let held = after_offers(None, front);
        let (best, permutation) = held->0;
        let k = choose|k: int| 0 <= k < front.len() && #[trigger] front[k] == (best, permutation);
        assert(offers[k] == front[k]);
        assert(offers[offers.len() - 1] == last);
        assert forall|m: int| 0 <= m < offers.len() implies (#[trigger] offers[m]).0
            <= fitness_of(after_offers(None, offers)) by {
            if m < front.len() {
                assert(offers[m] == front[m]);
            }
        }
    }
}

/// Holds the best solution that was offered so far.
#[derive(Clone, Debug, PartialEq, Eq)]
pub struct BestTracker {
    best: Option<BestRecord>,
}

impl View for BestTracker {
    type V = Held;

    closed spec fn view(&self) -> Held {
        match self.best {
            None => None,
            Some(record) => Some((record.fitness, record.permutation@)),
        }
    }
}

impl BestTracker {
    /// A tracker that holds nothing.
    pub fn new() -> (tracker: BestTracker)
        ensures
            tracker@ is None,
    {
        BestTracker { best: None }
    }

    /// Offers a solution. It replaces what is held if nothing is held yet or
    /// if its fitness is strictly higher; with an equal fitness the earlier
    /// solution stays. Tells whether the offer was taken.
    pub fn offer(&mut self, fitness: usize, permutation: &Vec<usize>) -> (taken: bool)
        ensures
            final(self)@ == offer_spec(old(self)@, fitness, permutation@),
            taken == (old(self)@ matches Some((best, _)) ==> fitness > best),
            not_worse(old(self)@, final(self)@),
            final(self)@ is Some,
    {
        let taken: bool = match &self.best {
            None => true,
            Some(record) => fitness > record.fitness,
        };
        if taken {
            self.best = Some(BestRecord { fitness, permutation: permutation.clone() });
        }
        taken
    }

    /// Tells whether a solution is held.
    pub fn is_empty(&self) -> (empty: bool)
        ensures
            empty == (self@ is None),
    {
        self.best.is_none()
    }

    /// The fitness held, if any.
    pub fn best_fitness(&self) -> (fitness: Option<usize>)
        ensures
            fitness == match self@ {
                None => None,
                Some((best, _)) => Some(best),
            },
    {
        match &self.best {
            None => None,
            Some(record) => Some(record.fitness),
        }
    }

    /// A copy of the permutation held, if any.
    pub fn best_permutation(&self) -> (permutation: Option<Vec<usize>>)
        ensures
            match self@ {
                None => permutation is None,
                Some((_, held)) => permutation matches Some(p) && p@ == held,
            },
    {
        match &self.best {
            None => None,
            Some(record) => Some(record.permutation.clone()),
        }
    }
}

} // verus!
