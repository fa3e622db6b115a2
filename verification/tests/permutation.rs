use evolve_keyboard_layout::error::InvalidPermutationError;
use evolve_keyboard_layout::permutation::{
    check_permutation, find_permutation_fault, identity, perturbed, random_permutation,
    same_permutation, shuffle, swap_slots,
};
use evolve_keyboard_layout::rng::SearchRng;

#[test]
fn identity_of_five_slots() {
    assert_eq!(identity(5), vec![0, 1, 2, 3, 4]);
    assert_eq!(identity(0), Vec::<usize>::new());
    assert!(check_permutation(&identity(5), 5));
}

#[test]
fn faults_are_named_in_order() {
    assert_eq!(find_permutation_fault(&vec![0, 1, 2], 3), None);
    assert_eq!(
        find_permutation_fault(&vec![0, 1], 3),
        Some(InvalidPermutationError::WrongLength)
    );
    assert_eq!(
        find_permutation_fault(&vec![0, 3, 1], 3),
        Some(InvalidPermutationError::IndexOutOfRange)
    );
    assert_eq!(
        find_permutation_fault(&vec![0, 1, 1], 3),
        Some(InvalidPermutationError::DuplicateIndex)
    );
    // an index out of range is named before a duplicate
    assert_eq!(
        find_permutation_fault(&vec![1, 1, 7], 3),
        Some(InvalidPermutationError::IndexOutOfRange)
    );
    assert!(!check_permutation(&vec![2, 2, 0], 3));
    assert!(check_permutation(&vec![], 0));
}

#[test]
fn swap_exchanges_two_entries() {
    let mut p = vec![0, 1, 2, 3];
    swap_slots(&mut p, 0, 3);
    assert_eq!(p, vec![3, 1, 2, 0]);
    swap_slots(&mut p, 1, 1);
    assert_eq!(p, vec![3, 1, 2, 0]);
}

#[test]
fn same_permutation_compares_values() {
    assert!(same_permutation(&vec![1, 0, 2], &vec![1, 0, 2]));
    assert!(!same_permutation(&vec![1, 0, 2], &vec![1, 2, 0]));
    assert!(!same_permutation(&vec![1, 0], &vec![1, 0, 2]));
    assert!(same_permutation(&vec![], &vec![]));
}

#[test]
fn shuffle_keeps_a_permutation() {
    for seed in 0..50u64 {
        let mut rng = SearchRng::seeded(seed);
        let mut p = identity(9);
        shuffle(&mut p, &mut rng);
        assert!(check_permutation(&p, 9), "seed {}", seed);
    }
    let mut rng = SearchRng::seeded(3);
    let mut empty: Vec<usize> = Vec::new();
    shuffle(&mut empty, &mut rng);
    assert!(empty.is_empty());
    assert_eq!(rng.state(), 3);
    let mut single = vec![0];
    shuffle(&mut single, &mut rng);
    assert_eq!(single, vec![0]);
    assert_eq!(rng.state(), 3);
}

#[test]
fn shuffle_follows_the_draws() {
    // one step per position from the last down to the second:
    // the position is exchanged with a position drawn at or below it
    let mut rng = SearchRng::seeded(17);
    let mut expected = identity(6);
    let mut remaining = 5;
    while remaining > 0 {
        let j = rng.below(remaining + 1);
        expected.swap(remaining, j);
        remaining -= 1;
    }
    let mut rng = SearchRng::seeded(17);
    let mut p = identity(6);
    shuffle(&mut p, &mut rng);
    assert_eq!(p, expected);
}

#[test]
fn random_permutation_is_repeatable() {
    let mut first = SearchRng::seeded(2024);
    let mut second = SearchRng::seeded(2024);
    let a = random_permutation(12, &mut first);
    let b = random_permutation(12, &mut second);
    assert_eq!(a, b);
    assert_eq!(first, second);
    assert!(check_permutation(&a, 12));
    let mut other = SearchRng::seeded(2025);
    let c = random_permutation(12, &mut other);
    assert!(check_permutation(&c, 12));
    assert_ne!(a, c);
}

#[test]
fn perturbed_exchanges_drawn_pairs() {
    let p = vec![4, 2, 0, 1, 3];
    let mut rng = SearchRng::seeded(5);
    let q = perturbed(&p, &mut rng, 3);
    assert!(check_permutation(&q, 5));
    let mut rng = SearchRng::seeded(5);
    let mut expected = p.clone();
    for _ in 0..3 {
        let i = rng.below(5);
        let j = rng.below(5);
        expected.swap(i, j);
    }
    assert_eq!(q, expected);
    // no exchange leaves the permutation and the generator as they are
    let mut rng = SearchRng::seeded(5);
    assert_eq!(perturbed(&p, &mut rng, 0), p);
    assert_eq!(rng.state(), 5);
    // nothing can be exchanged in an empty permutation
    assert_eq!(perturbed(&vec![], &mut rng, 4), Vec::<usize>::new());
    assert_eq!(rng.state(), 5);
}
