use evolve_keyboard_layout::annealing::{CoolingSchedule, Notification, Parameters};
use evolve_keyboard_layout::cache::Cache;
use evolve_keyboard_layout::error::{
    ConfigError, EvaluationError, InvalidParameterError, OptimizationError, ParseError,
};
use evolve_keyboard_layout::evaluation::EvaluationResult;
use evolve_keyboard_layout::evaluator::LayoutEvaluator;
use evolve_keyboard_layout::layout::Layout;
use evolve_keyboard_layout::permutation::check_permutation;
use evolve_keyboard_layout::sa_optimization::{sa_optimize, AnnealingOutcome};
use std::cell::{Cell, RefCell};

fn parameters(init_temp: Option<i64>, max_iters: u64) -> Parameters {
    Parameters {
        init_temp,
        key_switches: 1,
        max_iters,
        cooling: CoolingSchedule::Fast,
        progress_cadence: 10,
    }
}

// The cost of a layout: for each character, how far it stands from its
// position in the alphabet.
fn distance(layout: &Layout) -> Result<EvaluationResult, EvaluationError> {
    let mut costs = Vec::new();
    for (position, symbol) in layout.as_text().chars().enumerate() {
        let home = (symbol as u64).wrapping_sub('a' as u64);
        costs.push(home.abs_diff(position as u64));
    }
    Ok(EvaluationResult::new(costs))
}

fn text_cost(text: &str) -> u64 {
    text.chars()
        .enumerate()
        .map(|(position, symbol)| (symbol as u64 - 'a' as u64).abs_diff(position as u64))
        .sum()
}

// The usual rule: a costlier candidate is accepted with a chance that falls
// with the cost increase and rises with the temperature.
fn metropolis(increase: u64, temperature: u64, draw: u64) -> bool {
    let chance = (-(increase as f64) / temperature as f64).exp();
    (draw as f64 / u64::MAX as f64) < chance
}

fn run(
    layout: &str,
    fixed: &str,
    p: Parameters,
    start_with_layout: bool,
    seed: u64,
) -> (AnnealingOutcome, Vec<u64>, Vec<u64>, Vec<(String, u64)>) {
    let evaluator = LayoutEvaluator::new("abcdefgh", distance).unwrap();
    let mut cache = Cache::new();
    let budgets = RefCell::new(Vec::new());
    let updates = RefCell::new(Vec::new());
    let bests = RefCell::new(Vec::new());
    let outcome = sa_optimize(
        layout,
        p,
        &evaluator,
        fixed,
        start_with_layout,
        seed,
        &mut cache,
        metropolis,
        |iterations: u64| budgets.borrow_mut().push(iterations),
        |iteration: u64| updates.borrow_mut().push(iteration),
        |text: &str, cost: u64| bests.borrow_mut().push((String::from(text), cost)),
    )
    .unwrap();
    (outcome, budgets.into_inner(), updates.into_inner(), bests.into_inner())
}

#[test]
fn budget_is_told_once_and_progress_is_throttled() {
    // the initial temperature of zero is corrected to the default
    let (outcome, budgets, updates, _) = run("hgfedcba", "", parameters(Some(0), 100), true, 5);
    assert_eq!(budgets, vec![100]);
    assert!(updates.len() <= 10);
    assert_eq!(updates, vec![10, 20, 30, 40, 50, 60, 70, 80, 90]);
    for iteration in updates.iter() {
        assert!(*iteration % 10 == 0 && *iteration >= 10 && *iteration <= 100);
    }
    assert_eq!(outcome.iterations, 100);
    assert_eq!(outcome.notifications[0], Notification::Budget(100));
    assert!(!outcome.notifications.contains(&Notification::Progress(0)));
    assert!(!outcome.notifications.contains(&Notification::Progress(1)));
    let told_budgets = outcome
        .notifications
        .iter()
        .filter(|n| matches!(n, Notification::Budget(_)))
        .count();
    assert_eq!(told_budgets, 1);
}

#[test]
fn callbacks_are_told_what_the_outcome_repeats() {
    let (outcome, budgets, updates, bests) =
        run("hgfedcba", "", parameters(Some(20), 300), true, 77);
    let mut told_budgets = Vec::new();
    let mut told_updates = Vec::new();
    let mut told_bests = Vec::new();
    for notification in outcome.notifications.iter() {
        match notification {
            Notification::Budget(iterations) => told_budgets.push(*iterations),
            Notification::Progress(iteration) => told_updates.push(*iteration),
            Notification::NewBest { layout, cost } => told_bests.push((layout.clone(), *cost)),
        }
    }
    assert_eq!(told_budgets, budgets);
    assert_eq!(told_updates, updates);
    assert_eq!(told_bests, bests);
    assert_eq!(updates.len(), 29);
    assert_eq!(updates.first(), Some(&10));
    assert_eq!(updates.last(), Some(&290));
}

#[test]
fn new_best_solutions_get_cheaper_and_the_last_is_returned() {
    let (outcome, _, _, bests) = run("hgfedcba", "", parameters(Some(20), 400), true, 1234);
    let initial = text_cost("hgfedcba");
    assert_eq!(initial, 32);
    assert!(!bests.is_empty());
    let mut before = initial;
    for (text, cost) in bests.iter() {
        assert!(*cost < before);
        assert_eq!(text_cost(text), *cost);
        before = *cost;
    }
    let (last_text, last_cost) = bests.last().unwrap();
    assert_eq!(&outcome.layout, last_text);
    assert_eq!(outcome.best_cost, *last_cost);
    assert_eq!(text_cost(&outcome.layout), outcome.best_cost);
    assert!(outcome.best_cost <= outcome.last_cost);
    assert!(check_permutation(&outcome.best, 8));
    assert!(check_permutation(&outcome.last, 8));
}

#[test]
fn same_seed_gives_the_same_run() {
    let (first, _, _, first_bests) = run("bdacfehg", "", parameters(None, 250), false, 31);
    let (second, _, _, second_bests) = run("bdacfehg", "", parameters(None, 250), false, 31);
    assert_eq!(first, second);
    assert_eq!(first_bests, second_bests);
    let (other, _, _, _) = run("bdacfehg", "", parameters(None, 250), false, 32);
    assert!(check_permutation(&other.best, 8));
}

#[test]
fn fixed_characters_stay_where_they_are() {
    let (outcome, _, _, bests) = run("hgfedcba", "hd", parameters(Some(50), 200), false, 4);
    assert_eq!(outcome.best.len(), 6);
    assert_eq!(outcome.last.len(), 6);
    let fixed_in = |text: &str| {
        let chars: Vec<char> = text.chars().collect();
        chars[0] == 'h' && chars[4] == 'd'
    };
    assert!(fixed_in(&outcome.layout));
    for (text, _) in bests.iter() {
        assert!(fixed_in(text));
    }
}

#[test]
fn run_without_iterations_returns_the_start() {
    let (outcome, budgets, updates, bests) = run("hgfedcba", "", parameters(Some(5), 0), true, 9);
    assert_eq!(budgets, vec![0]);
    assert!(updates.is_empty());
    assert!(bests.is_empty());
    assert_eq!(outcome.layout, "hgfedcba");
    assert_eq!(outcome.best, vec![0, 1, 2, 3, 4, 5, 6, 7]);
    assert_eq!(outcome.best_cost, 32);
    assert_eq!(outcome.last_cost, 32);
    assert_eq!(outcome.iterations, 0);
    assert_eq!(
        outcome.notifications,
        vec![Notification::Budget(0)]
    );
}

#[test]
fn refused_run_tells_nothing() {
    let told = Cell::new(0u32);
    let attempt = |layout: &str, fixed: &str, p: Parameters| {
        let evaluator = LayoutEvaluator::new("abcdefgh", distance).unwrap();
        let mut cache = Cache::new();
        let found = sa_optimize(
            layout,
            p,
            &evaluator,
            fixed,
            true,
            0,
            &mut cache,
            metropolis,
            |_: u64| told.set(told.get() + 1),
            |_: u64| told.set(told.get() + 1),
            |_: &str, _: u64| told.set(told.get() + 1),
        );
        assert_eq!(cache.len(), 0);
        found.err()
    };
    let mut no_switches = parameters(Some(1), 10);
    no_switches.key_switches = 0;
    assert_eq!(
        attempt("hgfedcbx", "z", no_switches),
        Some(OptimizationError::InvalidParameter(InvalidParameterError::NoKeySwitches))
    );
    assert_eq!(
        attempt("hgfedcbx", "z", parameters(Some(1), 10)),
        Some(OptimizationError::Parse(ParseError::UnknownCharacter))
    );
    assert_eq!(
        attempt("hgfedcba", "z", parameters(Some(1), 10)),
        Some(OptimizationError::Config(ConfigError::MissingFixedCharacter))
    );
    assert_eq!(told.get(), 0);
}

#[test]
fn shared_cache_spares_evaluations() {
    let calls = Cell::new(0u32);
    let evaluator = LayoutEvaluator::new("abcdefgh", |layout: &Layout| {
        calls.set(calls.get() + 1);
        distance(layout)
    })
    .unwrap();
    let mut cache = Cache::new();
    let mut runs = Vec::new();
    for _ in 0..2 {
        let found = sa_optimize(
            "hgfedcba",
            parameters(Some(10), 150),
            &evaluator,
            "",
            true,
            21,
            &mut cache,
            metropolis,
            |_: u64| {},
            |_: u64| {},
            |_: &str, _: u64| {},
        )
        .unwrap();
        runs.push((found, calls.get(), cache.len()));
    }
    // the second run proposes what the first proposed, and evaluates nothing
    assert_eq!(runs[0].0, runs[1].0);
    assert_eq!(runs[0].1, runs[1].1);
    assert_eq!(runs[0].2, runs[1].2);
    assert_eq!(runs[0].1 as usize, runs[0].2);
    assert!(runs[0].2 <= 151);
}

#[test]
fn progress_follows_the_cadence_of_the_parameters() {
    let mut p = parameters(Some(7), 20);
    p.progress_cadence = 7;
    let (_, budgets, updates, _) = run("hgfedcba", "", p, true, 3);
    assert_eq!(budgets, vec![20]);
    assert_eq!(updates, vec![7, 14]);
    let mut q = parameters(Some(7), 7);
    q.progress_cadence = 7;
    let (_, _, updates, _) = run("hgfedcba", "", q, true, 3);
    assert!(updates.is_empty());
    let mut r = parameters(Some(7), 8);
    r.progress_cadence = 7;
    let (_, _, updates, _) = run("hgfedcba", "", r, true, 3);
    assert_eq!(updates, vec![7]);
}

#[test]
fn failed_evaluation_of_the_start_ends_the_run() {
    let evaluator = LayoutEvaluator::new("abcdefgh", |_: &Layout| {
        Err(EvaluationError { reason: String::from("no metrics") })
    })
    .unwrap();
    let mut cache = Cache::new();
    let told = RefCell::new(Vec::new());
    let found = sa_optimize(
        "hgfedcba",
        parameters(Some(10), 50),
        &evaluator,
        "",
        true,
        1,
        &mut cache,
        metropolis,
        |iterations: u64| told.borrow_mut().push(iterations),
        |_: u64| panic!("no progress is due"),
        |_: &str, _: u64| panic!("no solution was evaluated"),
    );
    assert_eq!(
        found.err(),
        Some(OptimizationError::Evaluation(EvaluationError { reason: String::from("no metrics") }))
    );
    assert_eq!(told.into_inner(), vec![50]);
    assert_eq!(cache.len(), 0);
}

#[test]
fn failed_evaluation_of_a_candidate_ends_the_run() {
    let calls = Cell::new(0u32);
    let evaluator = LayoutEvaluator::new("abcdefgh", |layout: &Layout| {
        calls.set(calls.get() + 1);
        if calls.get() > 25 {
            Err(EvaluationError { reason: String::from("worn out") })
        } else {
            distance(layout)
        }
    })
    .unwrap();
    let mut cache = Cache::new();
    let updates = RefCell::new(Vec::new());
    let found = sa_optimize(
        "hgfedcba",
        parameters(Some(10), 1000),
        &evaluator,
        "",
        true,
        6,
        &mut cache,
        metropolis,
        |_: u64| {},
        |iteration: u64| updates.borrow_mut().push(iteration),
        |_: &str, _: u64| {},
    );
    assert_eq!(
        found.err(),
        Some(OptimizationError::Evaluation(EvaluationError { reason: String::from("worn out") }))
    );
    assert_eq!(calls.get(), 26);
    // what was learned before the failure stays in the cache
    assert_eq!(cache.len(), 25);
    // the run has ended before its budget was used up
    let reported = updates.into_inner();
    assert!(reported.len() < 99);
    for (k, iteration) in reported.iter().enumerate() {
        assert_eq!(*iteration, 10 * (k as u64 + 1));
    }
}
