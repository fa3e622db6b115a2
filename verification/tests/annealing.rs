use evolve_keyboard_layout::annealing::{
    cool, Annealer, CoolingSchedule, Notification, Parameters, DEFAULT_CADENCE, DEFAULT_INIT_TEMP,
};
use evolve_keyboard_layout::error::InvalidParameterError;
use evolve_keyboard_layout::generator::PermutationLayoutGenerator;
use evolve_keyboard_layout::permutation::{check_permutation, perturbed};
use evolve_keyboard_layout::rng::SearchRng;

fn parameters(init_temp: Option<i64>, max_iters: u64) -> Parameters {
    Parameters {
        init_temp,
        key_switches: 1,
        max_iters,
        cooling: CoolingSchedule::Fast,
        progress_cadence: DEFAULT_CADENCE,
    }
}

#[test]
fn initial_temperature_is_corrected_to_the_default() {
    for given in [Some(0), Some(-1), Some(i64::MIN), None] {
        let mut p = parameters(given, 5);
        p.correct_init_temp();
        assert_eq!(p.init_temp, Some(DEFAULT_INIT_TEMP));
        assert_eq!(p.max_iters, 5);
        assert_eq!(p.key_switches, 1);
    }
    let mut p = parameters(Some(3), 5);
    p.correct_init_temp();
    assert_eq!(p.init_temp, Some(3));
    assert!(DEFAULT_INIT_TEMP > 0);
}

#[test]
fn temperature_that_cannot_be_corrected_is_refused() {
    let mut p = parameters(Some(0), 5);
    assert_eq!(p.correct_init_temp_with(0), Err(InvalidParameterError::InitialTemperature));
    assert_eq!(p, parameters(Some(0), 5));
    assert_eq!(p.correct_init_temp_with(-7), Err(InvalidParameterError::InitialTemperature));
    assert_eq!(p.correct_init_temp_with(12), Ok(()));
    assert_eq!(p.init_temp, Some(12));
    // a positive temperature needs no default
    let mut q = parameters(Some(4), 5);
    assert_eq!(q.correct_init_temp_with(0), Ok(()));
    assert_eq!(q.init_temp, Some(4));
    let mut r = parameters(None, 5);
    assert_eq!(r.correct_init_temp_with(0), Err(InvalidParameterError::InitialTemperature));
    assert_eq!(r.init_temp, None);
}

#[test]
fn annealing_parameters_are_validated() {
    let checked = parameters(Some(0), 100).validated().unwrap();
    assert_eq!(checked.init_temp, Some(DEFAULT_INIT_TEMP));
    assert_eq!(checked.starting_temperature(), DEFAULT_INIT_TEMP as u64);
    let mut p = parameters(Some(5), 100);
    p.key_switches = 0;
    assert_eq!(p.validated().err(), Some(InvalidParameterError::NoKeySwitches));
    let mut p = parameters(Some(5), 100);
    p.progress_cadence = 0;
    assert_eq!(p.validated().err(), Some(InvalidParameterError::NoCadence));
    for (numerator, denominator) in [(0, 10), (10, 10), (11, 10), (1, 0)] {
        let mut p = parameters(Some(5), 100);
        p.cooling = CoolingSchedule::Geometric { numerator, denominator };
        assert_eq!(p.validated().err(), Some(InvalidParameterError::CoolingRate));
    }
    let mut p = parameters(Some(5), 0);
    p.cooling = CoolingSchedule::Geometric { numerator: 9, denominator: 10 };
    assert_eq!(p.validated(), Ok(p));
    // no key switches are named before a cadence of zero
    let mut p = parameters(Some(5), 100);
    p.key_switches = 0;
    p.progress_cadence = 0;
    assert_eq!(p.validated().err(), Some(InvalidParameterError::NoKeySwitches));
    assert_eq!(parameters(Some(-3), 1).starting_temperature(), 1);
}

#[test]
fn fast_schedule_divides_the_initial_temperature() {
    let mut temperature = 100;
    let expected = [50, 33, 25, 20, 16, 14, 12, 11, 10];
    for (k, wanted) in expected.iter().enumerate() {
        temperature = cool(CoolingSchedule::Fast, 100, temperature, k as u64 + 1);
        assert_eq!(temperature, *wanted);
    }
    // the temperature is held at one
    assert_eq!(cool(CoolingSchedule::Fast, 3, 1, 3), 1);
    assert_eq!(cool(CoolingSchedule::Fast, 3, 1, u64::MAX), 1);
}

#[test]
fn geometric_schedule_multiplies_by_the_rate() {
    let schedule = CoolingSchedule::Geometric { numerator: 9, denominator: 10 };
    let mut temperature = 100;
    let expected = [90, 81, 72, 64, 57, 51, 45, 40, 36];
    for (k, wanted) in expected.iter().enumerate() {
        temperature = cool(schedule, 100, temperature, k as u64 + 1);
        assert_eq!(temperature, *wanted);
    }
    let halving = CoolingSchedule::Geometric { numerator: 1, denominator: 2 };
    assert_eq!(cool(halving, 4, 4, 1), 2);
    assert_eq!(cool(halving, 4, 2, 2), 1);
    assert_eq!(cool(halving, 4, 1, 3), 1);
    let slow = CoolingSchedule::Geometric { numerator: u64::MAX - 1, denominator: u64::MAX };
    assert_eq!(cool(slow, u64::MAX, u64::MAX, 1), u64::MAX - 1);
}

fn search(max_iters: u64, cadence: u64) -> Annealer {
    let generator = PermutationLayoutGenerator::from_layout("abcde", "e").unwrap();
    let mut p = parameters(Some(100), max_iters);
    p.progress_cadence = cadence;
    let initial = generator.identity_permutation();
    Annealer::assemble(generator, p.validated().unwrap(), SearchRng::seeded(8), initial, 50)
}

#[test]
fn proposal_is_a_neighbour_of_the_current_solution() {
    let mut annealer = search(10, 10);
    assert_eq!(annealer.current(), vec![0, 1, 2, 3]);
    assert_eq!(annealer.best(), vec![0, 1, 2, 3]);
    assert_eq!(annealer.current_cost(), 50);
    assert_eq!(annealer.best_cost(), 50);
    assert_eq!(annealer.temperature(), 100);
    assert_eq!(annealer.iteration(), 0);
    assert!(!annealer.finished());
    let (candidate, draw) = annealer.propose();
    let mut rng = SearchRng::seeded(8);
    let expected = perturbed(&vec![0, 1, 2, 3], &mut rng, 1);
    assert_eq!(candidate, expected);
    assert_eq!(draw, rng.next_u64());
    assert!(check_permutation(&candidate, 4));
    // nothing but the generator has moved
    assert_eq!(annealer.current(), vec![0, 1, 2, 3]);
    assert_eq!(annealer.iteration(), 0);
}

#[test]
fn cheaper_candidate_is_accepted_whatever_the_verdict() {
    let mut annealer = search(10, 10);
    let (candidate, _) = annealer.propose();
    assert!(!annealer.needs_verdict(40));
    assert!(!annealer.needs_verdict(50));
    assert!(annealer.needs_verdict(51));
    let told = annealer.conclude(40, false);
    assert_eq!(annealer.current(), candidate);
    assert_eq!(annealer.current_cost(), 40);
    assert_eq!(annealer.best(), candidate);
    assert_eq!(annealer.best_cost(), 40);
    assert_eq!(annealer.iteration(), 1);
    assert_eq!(annealer.temperature(), 50);
    assert_eq!(
        told,
        vec![Notification::NewBest { layout: annealer.best_layout(), cost: 40 }]
    );
    assert_eq!(annealer.best_layout().chars().last(), Some('e'));
}

#[test]
fn candidate_of_equal_cost_is_accepted_but_is_no_new_best() {
    let mut annealer = search(10, 10);
    let (candidate, _) = annealer.propose();
    let told = annealer.conclude(50, false);
    assert_eq!(annealer.current(), candidate);
    assert_eq!(annealer.best(), vec![0, 1, 2, 3]);
    assert_eq!(annealer.best_cost(), 50);
    assert!(told.is_empty());
}

#[test]
fn costlier_candidate_follows_the_verdict() {
    let mut annealer = search(10, 10);
    annealer.propose();
    let told = annealer.conclude(60, false);
    assert!(told.is_empty());
    assert_eq!(annealer.current(), vec![0, 1, 2, 3]);
    assert_eq!(annealer.current_cost(), 50);
    assert_eq!(annealer.iteration(), 1);
    let (candidate, _) = annealer.propose();
    let told = annealer.conclude(60, true);
    assert!(told.is_empty());
    assert_eq!(annealer.current(), candidate);
    assert_eq!(annealer.current_cost(), 60);
    // the best solution is still the first
    assert_eq!(annealer.best(), vec![0, 1, 2, 3]);
    assert_eq!(annealer.best_cost(), 50);
    // a candidate that is cheaper than the current solution but not than the best
    let (candidate, _) = annealer.propose();
    let told = annealer.conclude(55, false);
    assert!(told.is_empty());
    assert_eq!(annealer.current(), candidate);
    assert_eq!(annealer.best_cost(), 50);
    assert_eq!(annealer.iteration(), 3);
}

#[test]
fn progress_is_reported_at_the_cadence() {
    let mut annealer = search(10, 3);
    let mut reported = Vec::new();
    while !annealer.finished() {
        annealer.propose();
        for notification in annealer.conclude(u64::MAX, false) {
            match notification {
                Notification::Progress(iteration) => reported.push(iteration),
                other => panic!("unexpected notification {:?}", other),
            }
        }
    }
    assert_eq!(reported, vec![3, 6, 9]);
    assert_eq!(annealer.iteration(), 10);
    assert_eq!(annealer.temperature(), 9);
}

#[test]
fn progress_comes_before_a_new_best() {
    let mut annealer = search(10, 2);
    annealer.propose();
    annealer.conclude(50, false);
    annealer.propose();
    annealer.conclude(50, false);
    annealer.propose();
    let told = annealer.conclude(10, false);
    assert_eq!(
        told,
        vec![
            Notification::Progress(2),
            Notification::NewBest { layout: annealer.best_layout(), cost: 10 },
        ]
    );
}

#[test]
fn nothing_happens_without_a_candidate_or_after_the_end() {
    let mut annealer = search(1, 10);
    // no candidate is pending
    assert!(annealer.conclude(0, true).is_empty());
    assert_eq!(annealer.iteration(), 0);
    assert_eq!(annealer.current_cost(), 50);
    annealer.propose();
    annealer.conclude(70, false);
    assert!(annealer.finished());
    // the candidate was judged; none is pending
    assert!(annealer.conclude(0, true).is_empty());
    // the search has made all its iterations
    annealer.propose();
    assert!(annealer.conclude(0, true).is_empty());
    assert_eq!(annealer.iteration(), 1);
    assert_eq!(annealer.current_cost(), 50);
    assert_eq!(annealer.best_cost(), 50);
}
