//! A cache of evaluation results.
//!
//! Evaluating a layout is expensive, and a search comes back to the same
//! permutation many times. The cache keeps the result of each permutation it
//! was asked about. Entries are found by the value of the permutation, are
//! never changed once made, and are never dropped.
//!
//! The entries stand in the order in which they were made. An index leads
//! from the digest of a permutation to the places of the entries whose
//! permutations have that digest, so that a permutation is compared with few
//! entries only.
use std::collections::HashMap;
use vstd::prelude::*;
use crate::error::{EvaluationError, OptimizationError};
use crate::evaluation::{evaluated_by, refused_by, EvaluationResult};
use crate::evaluator::LayoutEvaluator;
use crate::generator::{layout_spec, PermutationLayoutGenerator};
use crate::layout::Layout;
use crate::permutation::{find_permutation_fault, permutation_fault, same_permutation};

verus! {

/// One entry: a permutation and its result.
#[derive(Clone, Debug)]
struct CacheEntry {
    key: Vec<usize>,
    value: EvaluationResult,
}

/// The digest of the empty sequence.
pub const DIGEST_OFFSET: u64 = 0xCBF2_9CE4_8422_2325u64;

/// The factor by which a digest is multiplied after each index.
pub const DIGEST_PRIME: u64 = 0x0000_0100_0000_01B3u64;

/// The digest of a sequence of indices, under which the cache files its
/// entries: each index in turn is mixed into the digest of those before it.
pub open spec fn digest(p: Seq<usize>) -> u64
    decreases p.len(),
{
    if p.len() == 0 {
        DIGEST_OFFSET
    } else {
        (digest(p.drop_last()) ^ (p.last() as u64)).wrapping_mul(DIGEST_PRIME)
    }
}

/// Computes the digest of `p`.
pub fn digest_of(p: &Vec<usize>) -> (d: u64)
    ensures
        d == digest(p@),
{
    let mut d: u64 = DIGEST_OFFSET;
    let mut i: usize = 0;
    while i < p.len()
        invariant
            i <= p.len(),
            d == digest(p@.take(i as int)),
        decreases p.len() - i,
    {
        proof {
            assert(p@.take(i + 1).drop_last() == p@.take(i as int));
            assert(p@.take(i + 1).last() == p@[i as int]);
        }
        d = (d ^ (p[i] as u64)).wrapping_mul(DIGEST_PRIME);
        i += 1;
    }
    assert(p@.take(p.len() as int) == p@);
    d
}

/// Remembers the evaluation result of every permutation it has seen.
#[derive(Clone, Debug)]
pub struct Cache {
    entries: Vec<CacheEntry>,
    index: HashMap<u64, Vec<usize>>,
}

impl View for Cache {
    type V = Map<Seq<usize>, Seq<u64>>;

    closed spec fn view(&self) -> Map<Seq<usize>, Seq<u64>> {
        Map::new(
            |key: Seq<usize>| self.holds(key),
            |key: Seq<usize>| self.entries@[self.place_of(key)].value@,
        )
    }
}

impl Cache {
    /// Some entry has the key `key`.
    closed spec fn holds(&self, key: Seq<usize>) -> bool {
        exists|i: int| 0 <= i < self.entries@.len() && (#[trigger] self.entries@[i]).key@ == key
    }

    /// The place of an entry with the key `key`.
    closed spec fn place_of(&self, key: Seq<usize>) -> int {
        choose|i: int| 0 <= i < self.entries@.len() && (#[trigger] self.entries@[i]).key@ == key
    }

    /// No permutation has two entries.
    closed spec fn distinct(&self) -> bool {
        forall|i: int, j: int|
            0 <= i < self.entries@.len() && 0 <= j < self.entries@.len() && i != j ==> (
            #[trigger] self.entries@[i]).key@ != (#[trigger] self.entries@[j]).key@
    }

    /// The index names the place of every entry under the digest of its
    /// permutation, and names nothing but places of entries.
    closed spec fn indexed(&self) -> bool {
        &&& forall|i: int|
            0 <= i < self.entries@.len() ==> self.index@.contains_key(
                digest((#[trigger] self.entries@[i]).key@),
            ) && self.index@[digest(self.entries@[i].key@)]@.contains(i as usize)
        &&& forall|d: u64, k: int|
            self.index@.contains_key(d) && 0 <= k < self.index@[d]@.len() ==> (
            #[trigger] self.index@[d]@[k] as int) < self.entries@.len()
    }

    /// The cache is in order: no permutation has two entries, and every
    /// entry is found through the index.
    pub closed spec fn wf(&self) -> bool {
        self.distinct() && self.indexed()
    }

    /// A cache without entries.
    pub fn new() -> (cache: Cache)
        ensures
            cache.wf(),
            cache@ == Map::<Seq<usize>, Seq<u64>>::empty(),
    {
        let cache = Cache { entries: Vec::new(), index: HashMap::new() };
        assert(cache@ =~= Map::<Seq<usize>, Seq<u64>>::empty());
        cache
    }

    /// The number of permutations that the cache has a result for.
    pub fn len(&self) -> (n: usize)
        requires
            self.wf(),
        ensures
            n == self.entry_count(),
            n == self@.dom().len(),
            self@.dom().finite(),
    {
        proof {
            self.lemma_entry_count();
        }
        self.entries.len()
    }

    /// The number of entries.
    pub closed spec fn entry_count(&self) -> nat {
        self.entries@.len()
    }

    /// The permutations of the entries, in the order of the entries.
    closed spec fn keys(&self) -> Seq<Seq<usize>> {
        Seq::new(self.entries@.len(), |i: int| self.entries@[i].key@)
    }

    /// The cache has one entry for each permutation that it has a result
    /// for.
    pub proof fn lemma_entry_count(&self)
        requires
            self.wf(),
        ensures
            self@.dom().finite(),
            self@.dom().len() == self.entry_count(),
    {
        let keys = self.keys();
        assert(self.distinct());
        assert forall|i: int, j: int| 0 <= i < keys.len() && 0 <= j < keys.len() && i != j implies keys[i]
            != keys[j] by {
            assert(self.entries@[i].key@ != self.entries@[j].key@);
        }
        assert forall|key: Seq<usize>| self@.dom().contains(key) <==> keys.to_set().contains(
            key,
        ) by {
            if self.holds(key) {
                let i = self.place_of(key);
                assert(keys[i] == key);
            }
            if keys.to_set().contains(key) {
                let i = choose|i: int| 0 <= i < keys.len() && keys[i] == key;
                assert(self.entries@[i].key@ == key);
            }
        }
        assert(self@.dom() =~= keys.to_set());
        keys.unique_seq_to_set();
    }

    /// The place of the entry of `permutation`, if there is one.
    fn find(&self, permutation: &Vec<usize>) -> (place: Option<usize>)
        requires
            self.wf(),
        ensures
            place is Some <==> self@.contains_key(permutation@),
            place matches Some(i) ==> i < self.entries@.len() && self.entries@[i as int].key@
                == permutation@ && self.entries@[i as int].value@ == self@[permutation@],
    {
        broadcast use vstd::std_specs::hash::group_hash_axioms;

        let d: u64 = digest_of(permutation);
        let places: &Vec<usize> = match self.index.get(&d) {
            Some(places) => places,
            None => {
                assert(!self.holds(permutation@)) by {
                    if self.holds(permutation@) {
                        let i = self.place_of(permutation@);
                        assert(self.index@.contains_key(digest(self.entries@[i].key@)));
                    }
                }
                return None;
            },
        };
        assert(places@ == self.index@[d]@);
        let mut k: usize = 0;
        while k < places.len()
            invariant
                k <= places.len(),
                self.wf(),
                d == digest(permutation@),
                self.index@.contains_key(d),
                places@ == self.index@[d]@,
                forall|j: int|
                    0 <= j < k ==> self.entries@[#[trigger] places@[j] as int].key@
                        != permutation@,
            decreases places.len() - k,
        {
            let i: usize = places[k];
            assert((self.index@[d]@[k as int] as int) < self.entries@.len());
            if same_permutation(&self.entries[i].key, permutation) {
                assert(self.holds(permutation@));
                assert(self.place_of(permutation@) == i);
                return Some(i);
            }
            k += 1;
        }
        assert(!self.holds(permutation@)) by {
            if self.holds(permutation@) {
                let i = self.place_of(permutation@);
                assert(0 <= i < self.entries@.len());
                assert(self.entries.len() <= usize::MAX);
                assert(self.entries@[i].key@ == permutation@);
                assert(self.index@[d]@.contains(i as usize));
                let j = choose|j: int| 0 <= j < places@.len() && places@[j] == i as usize;
                assert(places@[j] as int == i);
                assert(self.entries@[places@[j] as int].key@ != permutation@);
            }
        }
        None
    }

    /// Tells whether the cache has a result for `permutation`.
    pub fn contains(&self, permutation: &Vec<usize>) -> (held: bool)
        requires
            self.wf(),
        ensures
            held == self@.contains_key(permutation@),
    {
        self.find(permutation).is_some()
    }

    /// The result held for `permutation`, if there is one.
    pub fn lookup(&self, permutation: &Vec<usize>) -> (found: Option<EvaluationResult>)
        requires
            self.wf(),
        ensures
            match found {
                Some(result) => self@.contains_key(permutation@) && result@ == self@[permutation@],
                None => !self@.contains_key(permutation@),
            },
    {
        match self.find(permutation) {
            Some(i) => Some(self.entries[i].value.duplicate()),
            None => None,
        }
    }

    /// Enters `result` as the result of `permutation`, unless the cache has
    /// one already: an entry is never changed. Tells whether the result was
    /// entered.
    pub fn insert(&mut self, permutation: &Vec<usize>, result: &EvaluationResult) -> (entered: bool)
        requires
            old(self).wf(),
        ensures
            final(self).wf(),
            entered == !old(self)@.contains_key(permutation@),
            final(self)@ == if entered {
                old(self)@.insert(permutation@, result@)
            } else {
                old(self)@
            },
            final(self).entry_count() == old(self).entry_count() + if entered {
                1nat
            } else {
                0nat
            },
    {
        broadcast use vstd::std_specs::hash::group_hash_axioms;

        if self.find(permutation).is_some() {
            return false;
        }
        let ghost before = *self;
        let d: u64 = digest_of(permutation);
        let place: usize = self.entries.len();
        let entry = CacheEntry { key: permutation.clone(), value: result.duplicate() };
        self.entries.push(entry);
        let mut places: Vec<usize> = match self.index.remove(&d) {
            Some(places) => places,
            None => Vec::new(),
        };
        let ghost earlier = places@;
        places.push(place);
        self.index.insert(d, places);
        proof {
            let last = before.entries@.len() as int;
            assert(self.entries@[last].key@ == permutation@);
            assert forall|key: Seq<usize>| self.holds(key) <==> (before.holds(key) || key
                == permutation@) by {
                if before.holds(key) {
                    let i = before.place_of(key);
                    assert(self.entries@[i] == before.entries@[i]);
                }
                if self.holds(key) && key != permutation@ {
                    let i = self.place_of(key);
                    assert(before.entries@[i] == self.entries@[i]);
                }
            }
            assert forall|key: Seq<usize>| self.holds(key) implies #[trigger] self@[key]
                == before@.insert(permutation@, result@)[key] by {
                let i = self.place_of(key);
                if key == permutation@ {
                    assert(i == last);
                } else {
                    assert(before.entries@[i] == self.entries@[i]);
                    let j = before.place_of(key);
                    assert(self.entries@[j] == before.entries@[j]);
                    assert(i == j);
                }
            }
            assert(self@ =~= before@.insert(permutation@, result@));
            assert(self.distinct()) by {
                assert forall|i: int, j: int|
                    0 <= i < self.entries@.len() && 0 <= j < self.entries@.len() && i
                        != j implies (#[trigger] self.entries@[i]).key@ != (
                #[trigger] self.entries@[j]).key@ by {
                    if i < last {
                        assert(self.entries@[i] == before.entries@[i]);
                    }
                    if j < last {
                        assert(self.entries@[j] == before.entries@[j]);
                    }
                    if i == last && j < last {
                        assert(before.holds(before.entries@[j].key@));
                    }
                    if j == last && i < last {
                        assert(before.holds(before.entries@[i].key@));
                    }
                }
            }
            assert(self.index@.contains_key(d) && self.index@[d]@ == earlier.push(place));
            assert(forall|e: u64|
                e != d ==> (#[trigger] self.index@.contains_key(e)) == before.index@.contains_key(
                    e,
                ));
            assert(forall|e: u64|
                e != d && #[trigger] self.index@.contains_key(e) ==> self.index@[e]
                    == before.index@[e]);
            assert(before.index@.contains_key(d) ==> earlier == before.index@[d]@);
            assert(!before.index@.contains_key(d) ==> earlier == Seq::<usize>::empty());
            assert(self.indexed()) by {
                assert forall|i: int| 0 <= i < self.entries@.len() implies self.index@.contains_key(
                    digest((#[trigger] self.entries@[i]).key@),
                ) && self.index@[digest(self.entries@[i].key@)]@.contains(i as usize) by {
                    if i < last {
                        assert(self.entries@[i] == before.entries@[i]);
                        let e = digest(before.entries@[i].key@);
                        assert(before.index@.contains_key(e) && before.index@[e]@.contains(
                            i as usize,
                        ));
                        if e == d {
                            let k = choose|k: int|
                                0 <= k < earlier.len() && earlier[k] == i as usize;
                            assert(earlier.push(place)[k] == i as usize);
                        }
                    } else {
                        assert(earlier.push(place)[earlier.len() as int] == place);
                    }
                }
                assert forall|e: u64, k: int|
                    self.index@.contains_key(e) && 0 <= k < self.index@[e]@.len() implies (
                #[trigger] self.index@[e]@[k] as int) < self.entries@.len() by {
                    if e == d {
                        if k < earlier.len() {
                            assert(earlier.push(place)[k] == earlier[k]);
                            assert((before.index@[d]@[k] as int) < before.entries@.len());
                        }
                    } else {
                        assert(before.index@.contains_key(e));
                        assert((before.index@[e]@[k] as int) < before.entries@.len());
                    }
                }
            }
        }
        true
    }

    /// The result of `permutation`: the one held, if the cache has one, and
    /// else what `evaluate` returns, which is then entered. The second part
    /// of the answer tells whether the result came from the cache. The
    /// function `evaluate` is called only where the cache has no result, and
    /// then once.
    pub fn get_or_compute<F: FnOnce() -> EvaluationResult>(
        &mut self,
        permutation: &Vec<usize>,
        evaluate: F,
    ) -> (answer: (EvaluationResult, bool))
        requires
            old(self).wf(),
            !old(self)@.contains_key(permutation@) ==> evaluate.requires(()),
        ensures
            final(self).wf(),
            answer.1 == old(self)@.contains_key(permutation@),
            answer.1 ==> final(self)@ == old(self)@ && answer.0@ == old(self)@[permutation@],
            !answer.1 ==> final(self)@ == old(self)@.insert(permutation@, answer.0@)
                && evaluate.ensures((), answer.0),
            final(self)@.contains_key(permutation@),
            final(self)@[permutation@] == answer.0@,
    {
        match self.lookup(permutation) {
            Some(result) => (result, true),
            None => {
                let result: EvaluationResult = evaluate();
                self.insert(permutation, &result);
                (result, false)
            },
        }
    }
}

/// Every entry of `now` is an entry of `known` or the result that `evaluate`
/// gave for the layout of the entry's permutation.
#[verifier::opaque]
pub open spec fn grown_from<E: Fn(&Layout) -> Result<EvaluationResult, EvaluationError>>(
    evaluate: E,
    known: Map<Seq<usize>, Seq<u64>>,
    now: Map<Seq<usize>, Seq<u64>>,
    base: Seq<char>,
    slots: Seq<char>,
) -> bool {
    forall|p: Seq<usize>| #[trigger]
        now.contains_key(p) ==> (known.contains_key(p) && known[p] == now[p]) || evaluated_by(
            evaluate,
            layout_spec(base, slots, p),
            now[p],
        )
}

/// The evaluation result of the permutation `permutation`: the one that
/// `cache` holds, if it holds one, and else what `evaluator` says of the
/// layout of the permutation, which is then entered into the cache. A
/// sequence that is no permutation of the slot set is refused, and nothing is
/// evaluated or entered. Where the evaluation fails, its failure is passed on
/// and nothing is entered.
pub fn evaluate_through<E: Fn(&Layout) -> Result<EvaluationResult, EvaluationError>>(
    cache: &mut Cache,
    generator: &PermutationLayoutGenerator,
    evaluator: &LayoutEvaluator<E>,
    permutation: &Vec<usize>,
) -> (answer: Result<EvaluationResult, OptimizationError>)
    requires
        old(cache).wf(),
        generator.wf(),
        evaluator.wf(),
    ensures
        final(cache).wf(),
        match answer {
            Ok(result) => {
                &&& permutation_fault(permutation@, generator.movable().len()) is None
                &&& final(cache)@ == if old(cache)@.contains_key(permutation@) {
                    old(cache)@
                } else {
                    old(cache)@.insert(permutation@, result@)
                }
                &&& final(cache)@[permutation@] == result@
                &&& if old(cache)@.contains_key(permutation@) {
                    result@ == old(cache)@[permutation@]
                } else {
                    evaluated_by(
                        evaluator.scorer(),
                        layout_spec(generator.base(), generator.movable(), permutation@),
                        result@,
                    )
                }
            },
            Err(OptimizationError::InvalidPermutation(fault)) => permutation_fault(
                permutation@,
                generator.movable().len(),
            ) == Some(fault) && final(cache)@ == old(cache)@,
            Err(OptimizationError::Evaluation(error)) => {
                &&& permutation_fault(permutation@, generator.movable().len()) is None
                &&& !old(cache)@.contains_key(permutation@)
                &&& refused_by(
                    evaluator.scorer(),
                    layout_spec(generator.base(), generator.movable(), permutation@),
                    error,
                )
                &&& final(cache)@ == old(cache)@
            },
            Err(_) => false,
        },
{
    if let Some(fault) = find_permutation_fault(permutation, generator.slot_count()) {
        return Err(OptimizationError::InvalidPermutation(fault));
    }
    match cache.lookup(permutation) {
        Some(result) => Ok(result),
        None => {
            let layout: Layout = match generator.generate_layout(permutation) {
                Ok(layout) => layout,
                Err(_) => Layout::from_keys(Vec::new()),
            };
            match evaluator.score(&layout) {
                Ok(result) => {
                    cache.insert(permutation, &result);
                    Ok(result)
                },
                Err(error) => Err(OptimizationError::Evaluation(error)),
            }
        },
    }
}

/// Asking twice gives the same result, and the second answer comes from the
/// cache: once a permutation was asked about, whatever the cache held before
/// and whatever was computed, the cache holds a result for it, which is the
/// result of the first answer, and no later entry of another permutation
/// changes it.
pub proof fn lemma_cached_result_stays(
    before: Map<Seq<usize>, Seq<u64>>,
    permutation: Seq<usize>,
    computed: Seq<u64>,
    other: Seq<usize>,
    other_computed: Seq<u64>,
)
    ensures
        ({
            let first = if before.contains_key(permutation) {
                before[permutation]
            } else {
                computed
            };
            let after = if before.contains_key(permutation) {
                before
            } else {
                before.insert(permutation, computed)
            };
            let later = if after.contains_key(other) {
                after
            } else {
                after.insert(other, other_computed)
            };
            &&& after.contains_key(permutation)
            &&& after[permutation] == first
            &&& later.contains_key(permutation)
            &&& later[permutation] == first
        }),
{
}

} // verus!
