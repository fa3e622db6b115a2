use evolve_keyboard_layout::tracker::BestTracker;

#[test]
fn first_offer_is_taken() {
    let mut tracker = BestTracker::new();
    assert!(tracker.is_empty());
    assert_eq!(tracker.best_fitness(), None);
    assert_eq!(tracker.best_permutation(), None);
    assert!(tracker.offer(0, &vec![2, 1, 0]));
    assert!(!tracker.is_empty());
    assert_eq!(tracker.best_fitness(), Some(0));
    assert_eq!(tracker.best_permutation(), Some(vec![2, 1, 0]));
}

#[test]
fn only_a_strictly_better_offer_replaces() {
    let mut tracker = BestTracker::new();
    assert!(tracker.offer(10, &vec![0, 1, 2]));
    // equal fitness: the earlier solution stays
    assert!(!tracker.offer(10, &vec![2, 1, 0]));
    assert_eq!(tracker.best_permutation(), Some(vec![0, 1, 2]));
    // worse
    assert!(!tracker.offer(9, &vec![1, 0, 2]));
    assert_eq!(tracker.best_fitness(), Some(10));
    // better
    assert!(tracker.offer(11, &vec![1, 2, 0]));
    assert_eq!(tracker.best_fitness(), Some(11));
    assert_eq!(tracker.best_permutation(), Some(vec![1, 2, 0]));
}

#[test]
fn best_fitness_never_decreases() {
    let offers: Vec<usize> = vec![5, 3, 8, 8, 1, 9, 2, 9, 0, 7];
    let mut tracker = BestTracker::new();
    let mut before: Option<usize> = None;
    let mut highest = 0;
    for (k, fitness) in offers.iter().enumerate() {
        tracker.offer(*fitness, &vec![k]);
        let now = tracker.best_fitness();
        assert!(now.is_some());
        if let Some(earlier) = before {
            assert!(now.unwrap() >= earlier);
        }
        if *fitness > highest {
            highest = *fitness;
        }
        assert_eq!(now, Some(highest));
        before = now;
    }
    // the first solution that reached the best fitness is the one held
    assert_eq!(tracker.best_permutation(), Some(vec![5]));
}
