use evolve_keyboard_layout::cache::{digest_of, evaluate_through, Cache};
use evolve_keyboard_layout::error::{
    EvaluationError, InvalidPermutationError, OptimizationError,
};
use evolve_keyboard_layout::evaluation::EvaluationResult;
use evolve_keyboard_layout::evaluator::LayoutEvaluator;
use evolve_keyboard_layout::generator::PermutationLayoutGenerator;
use evolve_keyboard_layout::layout::Layout;
use std::cell::Cell;

#[test]
fn asked_twice_evaluated_once() {
    let calls = Cell::new(0u32);
    let mut cache = Cache::new();
    let p = vec![2, 0, 1];
    let (first, was_cached) = cache.get_or_compute(&p, || {
        calls.set(calls.get() + 1);
        EvaluationResult::new(vec![4, 6])
    });
    assert!(!was_cached);
    assert_eq!(first.total_cost(), 10);
    let (second, was_cached) = cache.get_or_compute(&p, || {
        calls.set(calls.get() + 1);
        EvaluationResult::new(vec![99])
    });
    assert!(was_cached);
    assert_eq!(second, first);
    assert_eq!(calls.get(), 1);
    assert_eq!(cache.len(), 1);
}

#[test]
fn entries_are_found_by_value() {
    let mut cache = Cache::new();
    assert!(!cache.contains(&vec![0, 1]));
    assert_eq!(cache.lookup(&vec![0, 1]), None);
    assert!(cache.insert(&vec![0, 1], &EvaluationResult::new(vec![1])));
    // another vector of the same value
    let same: Vec<usize> = (0..2).collect();
    assert!(cache.contains(&same));
    assert_eq!(cache.lookup(&same), Some(EvaluationResult::new(vec![1])));
    assert!(!cache.contains(&vec![1, 0]));
    assert!(!cache.contains(&vec![0, 1, 2]));
}

#[test]
fn entries_are_never_changed() {
    let mut cache = Cache::new();
    assert!(cache.insert(&vec![1, 0], &EvaluationResult::new(vec![5])));
    assert!(!cache.insert(&vec![1, 0], &EvaluationResult::new(vec![6])));
    assert_eq!(cache.lookup(&vec![1, 0]), Some(EvaluationResult::new(vec![5])));
    assert!(cache.insert(&vec![0, 1], &EvaluationResult::new(vec![7])));
    assert_eq!(cache.lookup(&vec![1, 0]), Some(EvaluationResult::new(vec![5])));
    assert_eq!(cache.len(), 2);
}

#[test]
fn each_distinct_permutation_is_evaluated_once() {
    let calls = Cell::new(0u32);
    let mut cache = Cache::new();
    let asked: Vec<Vec<usize>> = vec![
        vec![0, 1, 2],
        vec![1, 0, 2],
        vec![0, 1, 2],
        vec![2, 1, 0],
        vec![1, 0, 2],
        vec![0, 1, 2],
    ];
    for p in asked.iter() {
        let cost = p[0] as u64 * 100 + p[1] as u64 * 10 + p[2] as u64;
        let (result, _) = cache.get_or_compute(p, || {
            calls.set(calls.get() + 1);
            EvaluationResult::new(vec![cost])
        });
        assert_eq!(result.total_cost(), cost);
    }
    assert_eq!(calls.get(), 3);
    assert_eq!(cache.len(), 3);
}

#[test]
fn evaluation_goes_through_the_cache() {
    let calls = Cell::new(0u32);
    let evaluator = LayoutEvaluator::new("abcd", |layout: &Layout| {
        calls.set(calls.get() + 1);
        let text = layout.as_text();
        Ok(EvaluationResult::new(vec![text.chars().position(|c| c == 'a').unwrap() as u64]))
    })
    .unwrap();
    let generator = PermutationLayoutGenerator::from_layout("abcd", "d").unwrap();
    let mut cache = Cache::new();
    // "bcad": the character a stands at position 2
    let first = evaluate_through(&mut cache, &generator, &evaluator, &vec![1, 2, 0]).unwrap();
    assert_eq!(first.total_cost(), 2);
    let second = evaluate_through(&mut cache, &generator, &evaluator, &vec![1, 2, 0]).unwrap();
    assert_eq!(second, first);
    assert_eq!(calls.get(), 1);
    // a sequence that is no permutation is refused, and nothing is evaluated
    let refused = evaluate_through(&mut cache, &generator, &evaluator, &vec![1, 1, 0]);
    assert_eq!(
        refused.err(),
        Some(OptimizationError::InvalidPermutation(InvalidPermutationError::DuplicateIndex))
    );
    assert_eq!(calls.get(), 1);
    assert_eq!(cache.len(), 1);
}

#[test]
fn digest_mixes_each_index_in_turn() {
    assert_eq!(digest_of(&vec![]), 0xCBF2_9CE4_8422_2325);
    assert_eq!(digest_of(&vec![1]), 0xCBF2_9CE4_8422_2324u64.wrapping_mul(0x0000_0100_0000_01B3));
    assert_eq!(digest_of(&vec![1]), 0xAF63_BC4C_8601_B62C);
    assert_eq!(digest_of(&vec![2, 0, 1]), 0xEAA0_0718_75DF_2B5A);
    assert_ne!(digest_of(&vec![0, 1, 2]), digest_of(&vec![2, 0, 1]));
}

#[test]
fn many_entries_are_all_found() {
    let mut cache = Cache::new();
    let mut made = Vec::new();
    for a in 0..6usize {
        for b in 0..6usize {
            for c in 0..6usize {
                let p = vec![a, b, c];
                let cost = (a * 36 + b * 6 + c) as u64;
                assert!(cache.insert(&p, &EvaluationResult::new(vec![cost])));
                made.push((p, cost));
            }
        }
    }
    assert_eq!(cache.len(), 216);
    for (p, cost) in made.iter() {
        assert_eq!(cache.lookup(p), Some(EvaluationResult::new(vec![*cost])));
        assert!(!cache.insert(p, &EvaluationResult::new(vec![0])));
    }
    assert!(!cache.contains(&vec![6, 0, 0]));
    assert!(!cache.contains(&vec![0, 0]));
    assert_eq!(cache.len(), 216);
}

#[test]
fn failed_evaluation_is_passed_on_and_not_entered() {
    let calls = Cell::new(0u32);
    let evaluator = LayoutEvaluator::new("abc", |layout: &Layout| {
        calls.set(calls.get() + 1);
        if layout.as_text().starts_with('c') {
            Err(EvaluationError { reason: String::from("c cannot lead") })
        } else {
            Ok(EvaluationResult::new(vec![1]))
        }
    })
    .unwrap();
    let generator = PermutationLayoutGenerator::from_layout("abc", "").unwrap();
    let mut cache = Cache::new();
    let failed = evaluate_through(&mut cache, &generator, &evaluator, &vec![2, 0, 1]);
    assert_eq!(
        failed.err(),
        Some(OptimizationError::Evaluation(EvaluationError {
            reason: String::from("c cannot lead")
        }))
    );
    assert_eq!(cache.len(), 0);
    assert!(!cache.contains(&vec![2, 0, 1]));
    // nothing was entered, so the function is asked again
    assert!(evaluate_through(&mut cache, &generator, &evaluator, &vec![2, 0, 1]).is_err());
    assert_eq!(calls.get(), 2);
    assert!(evaluate_through(&mut cache, &generator, &evaluator, &vec![0, 1, 2]).is_ok());
    assert_eq!(cache.len(), 1);
}
