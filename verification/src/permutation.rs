//! Permutations of the slot set.
//!
//! A permutation of `n` slots is a sequence of `n` slot indices in which every
//! index below `n` occurs exactly once.
use vstd::prelude::*;
use crate::error::InvalidPermutationError;
use crate::rng::{advance, draw_below, SearchRng};

verus! {

/// Every index of `p` addresses one of `slots` slots.
pub open spec fn all_in_range(p: Seq<usize>, slots: nat) -> bool {
    forall|i: int| 0 <= i < p.len() ==> (#[trigger] p[i] as nat) < slots
}

/// `p` is a permutation of `slots` slots: one index per slot, each index in
/// range, none twice.
pub open spec fn is_permutation(p: Seq<usize>, slots: nat) -> bool {
    &&& p.len() == slots
    &&& all_in_range(p, slots)
    &&& p.no_duplicates()
}

/// The index sequences that the members of `population` hold.
pub open spec fn views_of(population: Seq<Vec<usize>>) -> Seq<Seq<usize>> {
    Seq::new(population.len(), |i: int| population[i]@)
}

/// What is wrong with `p` as a permutation of `slots` slots, if anything. A
/// wrong length is named before an index out of range, and that before an
/// index that occurs twice.
pub open spec fn permutation_fault(p: Seq<usize>, slots: nat) -> Option<InvalidPermutationError> {
    if p.len() != slots {
        Some(InvalidPermutationError::WrongLength)
    } else if !all_in_range(p, slots) {
        Some(InvalidPermutationError::IndexOutOfRange)
    } else if !p.no_duplicates() {
        Some(InvalidPermutationError::DuplicateIndex)
    } else {
        None
    }
}

/// The permutation that leaves every slot where it is.
pub open spec fn identity_spec(slots: nat) -> Seq<usize> {
    Seq::new(slots, |i: int| i as usize)
}

/// `p` with the entries at `i` and `j` exchanged.
pub open spec fn swapped(p: Seq<usize>, i: int, j: int) -> Seq<usize>
    recommends
        0 <= i < p.len(),
        0 <= j < p.len(),
{
    p.update(i, p[j]).update(j, p[i])
}

/// A sequence has no fault exactly when it is a permutation.
pub proof fn lemma_fault_free_is_permutation(p: Seq<usize>, slots: nat)
    ensures
        permutation_fault(p, slots) is None <==> is_permutation(p, slots),
{
}

/// The identity is a permutation.
pub proof fn lemma_identity_is_permutation(slots: nat)
    requires
        slots <= usize::MAX,
    ensures
        is_permutation(identity_spec(slots), slots),
{
}

/// Exchanging two entries of a permutation gives a permutation.
pub proof fn lemma_swapped_is_permutation(p: Seq<usize>, slots: nat, i: int, j: int)
    requires
        is_permutation(p, slots),
        0 <= i < p.len(),
        0 <= j < p.len(),
    ensures
        is_permutation(swapped(p, i, j), slots),
{
    let q = swapped(p, i, j);
    assert forall|a: int, b: int| 0 <= a < q.len() && 0 <= b < q.len() && a != b implies q[a]
        != q[b] by {
        let pa: int = if a == i { j } else if a == j { i } else { a };
        let pb: int = if b == i { j } else if b == j { i } else { b };
        assert(q[a] == p[pa]);
        assert(q[b] == p[pb]);
        assert(pa != pb);
    }
    assert forall|a: int| 0 <= a < q.len() implies (#[trigger] q[a] as nat) < slots by {
        let pa: int = if a == i { j } else if a == j { i } else { a };
        assert(q[a] == p[pa]);
    }
}

/// Tells whether two index sequences are equal.
pub fn same_permutation(a: &Vec<usize>, b: &Vec<usize>) -> (same: bool)
    ensures
        same == (a@ == b@),
{
    if a.len() != b.len() {
        return false;
    }
    let mut i: usize = 0;
    while i < a.len()
        invariant
            i <= a.len(),
            a.len() == b.len(),
            a@.take(i as int) == b@.take(i as int),
        decreases a.len() - i,
    {
        if a[i] != b[i] {
            return false;
        }
        assert(a@.take(i + 1) == a@.take(i as int).push(a@[i as int]));
        assert(b@.take(i + 1) == b@.take(i as int).push(b@[i as int]));
        i += 1;
    }
    assert(a@.take(a.len() as int) == a@);
    assert(b@.take(b.len() as int) == b@);
    true
}

/// Finds what is wrong with `p` as a permutation of `slots` slots.
pub fn find_permutation_fault(p: &Vec<usize>, slots: usize) -> (fault: Option<
    InvalidPermutationError,
>)
    ensures
        fault == permutation_fault(p@, slots as nat),
{
    if p.len() != slots {
        return Some(InvalidPermutationError::WrongLength);
    }
    let mut i: usize = 0;
    while i < p.len()
        invariant
            i <= p.len(),
            p.len() == slots,
            forall|k: int| 0 <= k < i ==> (#[trigger] p@[k] as nat) < slots,
        decreases p.len() - i,
    {
        if p[i] >= slots {
            assert(!((p@[i as int] as nat) < slots));
            return Some(InvalidPermutationError::IndexOutOfRange);
        }
        i += 1;
    }
    let mut seen: Vec<bool> = vec![false; slots];
    let mut j: usize = 0;
    while j < p.len()
        invariant
            j <= p.len(),
            p.len() == slots,
            seen.len() == slots,
            all_in_range(p@, slots as nat),
            forall|v: int| 0 <= v < slots ==> (#[trigger] seen@[v] <==> exists|k: int|
                0 <= k < j && p@[k] == v),
            forall|a: int, b: int| 0 <= a < j && 0 <= b < j && a != b ==> p@[a] != p@[b],
        decreases p.len() - j,
    {
        let index: usize = p[j];
        if seen[index] {
            let ghost k: int = choose|k: int| 0 <= k < j && p@[k] == index;
            assert(p@[k] == p@[j as int] && k != j);
            return Some(InvalidPermutationError::DuplicateIndex);
        }
        let ghost before = seen@;
        seen.set(index, true);
        assert forall|v: int| 0 <= v < slots implies (#[trigger] seen@[v] <==> exists|k: int|
            0 <= k < j + 1 && p@[k] == v) by {
            if v == index {
                assert(p@[j as int] == v);
            } else {
                assert(seen@[v] == before[v]);
                if before[v] {
                    let k: int = choose|k: int| 0 <= k < j && p@[k] == v;
                    assert(0 <= k < j + 1 && p@[k] == v);
                }
            }
        }
        assert forall|a: int, b: int| 0 <= a < j + 1 && 0 <= b < j + 1 && a != b implies p@[a]
            != p@[b] by {
            if a == j {
                assert(!before[index as int]);
                if p@[b] == p@[a] {
                    assert(0 <= b < j && p@[b] == index);
                }
            } else if b == j {
                assert(!before[index as int]);
                if p@[a] == p@[b] {
                    assert(0 <= a < j && p@[a] == index);
                }
            }
        }
        j += 1;
    }
    None
}

/// Tells whether `p` is a permutation of `slots` slots.
pub fn check_permutation(p: &Vec<usize>, slots: usize) -> (valid: bool)
    ensures
        valid == is_permutation(p@, slots as nat),
{
    find_permutation_fault(p, slots).is_none()
}

/// Builds the identity permutation of `slots` slots.
pub fn identity(slots: usize) -> (p: Vec<usize>)
    ensures
        p@ == identity_spec(slots as nat),
        is_permutation(p@, slots as nat),
{
    let mut p: Vec<usize> = Vec::new();
    let mut i: usize = 0;
    while i < slots
        invariant
            i <= slots,
            p@ == identity_spec(i as nat),
        decreases slots - i,
    {
        p.push(i);
        assert(p@ == identity_spec((i + 1) as nat));
        i += 1;
    }
    p
}

/// Exchanges the entries at `i` and `j`.
pub fn swap_slots(p: &mut Vec<usize>, i: usize, j: usize)
    requires
        i < old(p).len(),
        j < old(p).len(),
    ensures
        final(p)@ == swapped(old(p)@, i as int, j as int),
{
    let at_i: usize = p[i];
    let at_j: usize = p[j];
    p.set(i, at_j);
    p.set(j, at_i);
}

/// The permutation and the generator state after the last `remaining` steps of
/// a shuffle of `p`. One step draws an index `j` at or below the highest
/// position not yet settled and exchanges the two entries.
pub open spec fn shuffle_spec(p: Seq<usize>, state: u64, remaining: nat) -> (Seq<usize>, u64)
    decreases remaining,
{
    if remaining == 0 {
        (p, state)
    } else {
        let j = draw_below(state, remaining + 1);
        shuffle_spec(swapped(p, remaining as int, j as int), advance(state), (remaining - 1) as nat)
    }
}

/// The number of steps in a shuffle of `slots` slots.
pub open spec fn shuffle_steps(slots: nat) -> nat {
    if slots == 0 {
        0
    } else {
        (slots - 1) as nat
    }
}

/// A shuffle of a permutation gives a permutation.
pub proof fn lemma_shuffle_is_permutation(p: Seq<usize>, state: u64, remaining: nat)
    requires
        is_permutation(p, p.len()),
        remaining < p.len() || (remaining == 0 && p.len() == 0),
    ensures
        is_permutation(shuffle_spec(p, state, remaining).0, p.len()),
    decreases remaining,
{
    if remaining > 0 {
        let j = draw_below(state, remaining + 1);
        lemma_swapped_is_permutation(p, p.len(), remaining as int, j as int);
        lemma_shuffle_is_permutation(
            swapped(p, remaining as int, j as int),
            advance(state),
            (remaining - 1) as nat,
        );
    }
}

/// Shuffles `p` with draws from `rng`.
pub fn shuffle(p: &mut Vec<usize>, rng: &mut SearchRng)
    ensures
        final(p)@ == shuffle_spec(old(p)@, old(rng)@, shuffle_steps(old(p)@.len())).0,
        final(rng)@ == shuffle_spec(old(p)@, old(rng)@, shuffle_steps(old(p)@.len())).1,
        final(p).len() == old(p).len(),
        is_permutation(old(p)@, old(p)@.len()) ==> is_permutation(final(p)@, old(p)@.len()),
{
    proof {
        if is_permutation(p@, p@.len()) {
            lemma_shuffle_is_permutation(p@, rng@, shuffle_steps(p@.len()));
        }
    }
    if p.len() == 0 {
        return ;
    }
    let mut remaining: usize = p.len() - 1;
    while remaining > 0
        invariant
            remaining < p.len(),
            p.len() == old(p).len(),
            shuffle_spec(p@, rng@, remaining as nat) == shuffle_spec(
                old(p)@,
                old(rng)@,
                shuffle_steps(old(p)@.len()),
            ),
        decreases remaining,
    {
        let j: usize = rng.below(remaining + 1);
        swap_slots(p, remaining, j);
        remaining -= 1;
    }
}

/// A random permutation of `slots` slots: the identity, shuffled.
pub fn random_permutation(slots: usize, rng: &mut SearchRng) -> (p: Vec<usize>)
    ensures
        p@ == random_permutation_spec(slots as nat, old(rng)@).0,
        final(rng)@ == random_permutation_spec(slots as nat, old(rng)@).1,
        is_permutation(p@, slots as nat),
{
    let mut p: Vec<usize> = identity(slots);
    shuffle(&mut p, rng);
    p
}

/// The permutation that `random_permutation` builds from a generator in
/// `state`, and the state it leaves.
pub open spec fn random_permutation_spec(slots: nat, state: u64) -> (Seq<usize>, u64) {
    shuffle_spec(identity_spec(slots), state, shuffle_steps(slots))
}

/// The permutation and the generator state after `switches` random exchanges
/// in `p`. One exchange draws two positions and swaps their entries.
pub open spec fn perturb_spec(p: Seq<usize>, state: u64, switches: nat) -> (Seq<usize>, u64)
    decreases switches,
{
    if switches == 0 || p.len() == 0 {
        (p, state)
    } else {
        let i = draw_below(state, p.len());
        let j = draw_below(advance(state), p.len());
        perturb_spec(swapped(p, i as int, j as int), advance(advance(state)), (switches - 1) as nat)
    }
}

/// Random exchanges in a permutation give a permutation.
pub proof fn lemma_perturb_is_permutation(p: Seq<usize>, state: u64, switches: nat)
    requires
        is_permutation(p, p.len()),
    ensures
        is_permutation(perturb_spec(p, state, switches).0, p.len()),
    decreases switches,
{
    if switches > 0 && p.len() > 0 {
        let i = draw_below(state, p.len());
        let j = draw_below(advance(state), p.len());
        lemma_swapped_is_permutation(p, p.len(), i as int, j as int);
        lemma_perturb_is_permutation(
            swapped(p, i as int, j as int),
            advance(advance(state)),
            (switches - 1) as nat,
        );
    }
}

/// A neighbour of `p`: a copy in which `switches` random pairs of entries
/// were exchanged.
pub fn perturbed(p: &Vec<usize>, rng: &mut SearchRng, switches: usize) -> (q: Vec<usize>)
    ensures
        q@ == perturb_spec(p@, old(rng)@, switches as nat).0,
        final(rng)@ == perturb_spec(p@, old(rng)@, switches as nat).1,
        q.len() == p.len(),
        is_permutation(p@, p@.len()) ==> is_permutation(q@, p@.len()),
{
    proof {
        if is_permutation(p@, p@.len()) {
            lemma_perturb_is_permutation(p@, rng@, switches as nat);
        }
        lemma_perturb_keeps_length(p@, rng@, switches as nat);
    }
    let mut q: Vec<usize> = p.clone();
    if q.len() == 0 {
        return q;
    }
    let mut left: usize = switches;
    while left > 0
        invariant
            q.len() == p.len(),
            q.len() > 0,
            perturb_spec(q@, rng@, left as nat) == perturb_spec(p@, old(rng)@, switches as nat),
        decreases left,
    {
        let i: usize = rng.below(q.len());
        let j: usize = rng.below(q.len());
        swap_slots(&mut q, i, j);
        left -= 1;
    }
    q
}

/// Random exchanges keep the length.
pub proof fn lemma_perturb_keeps_length(p: Seq<usize>, state: u64, switches: nat)
    ensures
        perturb_spec(p, state, switches).0.len() == p.len(),
    decreases switches,
{
    if switches > 0 && p.len() > 0 {
        let i = draw_below(state, p.len());
        let j = draw_below(advance(state), p.len());
        lemma_perturb_keeps_length(
            swapped(p, i as int, j as int),
            advance(advance(state)),
            (switches - 1) as nat,
        );
    }
}

} // verus!
