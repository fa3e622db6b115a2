//! Simulated annealing, run to completion.
//!
//! `sa_optimize` starts a search, makes all its iterations and returns what
//! it found. While it runs it tells three callbacks what happens: the number
//! of iterations once before the first, the progress now and then, and every
//! new best solution as a layout text with its cost. The callbacks are
//! called in the course of the search and must not call back into it. A run
//! ends before its time where the evaluation function fails on a solution;
//! the failure is then what the run returns.
use vstd::prelude::*;
use crate::annealing::{
    concluded,
    conclusion_events,
    due_progress,
    events_of,
    lemma_progress_of_concat,
    lemma_run_progress,
    opening_events,
    pending_candidate,
    pending_draw,
    progress_of,
    proposed,
    run_events,
    run_state,
    starting_state,
    state_valid,
    Annealer,
    Event,
    Notification,
    Parameters,
    SearchState,
    DEFAULT_INIT_TEMP,
};
use crate::annealing::{corrected_temp, parameter_fault};
use crate::cache::{evaluate_through, grown_from, Cache};
use crate::error::{EvaluationError, OptimizationError};
use crate::evaluation::{evaluated_by, refused_by, total_of, EvaluationResult};
use crate::evaluator::LayoutEvaluator;
use crate::generator::{
    config_fault,
    derived_slots,
    layout_spec,
    render_spec,
    PermutationLayoutGenerator,
};
use crate::layout::Layout;
use crate::permutation::{identity_spec, is_permutation, random_permutation_spec};
use crate::rng::SearchRng;

verus! {

/// What a run has found.
#[derive(Clone, Debug, PartialEq, Eq)]
pub struct AnnealingOutcome {
    /// The best solution of the whole run, as a layout text. This is what a
    /// run returns; the solution that was accepted last may cost more.
    pub layout: String,
    /// The best solution of the whole run.
    pub best: Vec<usize>,
    /// The cost of the best solution.
    pub best_cost: u64,
    /// The solution that was accepted last.
    pub last: Vec<usize>,
    /// The cost of the solution that was accepted last.
    pub last_cost: u64,
    /// The number of iterations made.
    pub iterations: u64,
    /// All that the callbacks were told, in order.
    pub notifications: Vec<Notification>,
}

/// The parameters as a run uses them: with the initial temperature
/// corrected.
pub open spec fn run_parameters(parameters: Parameters) -> Parameters {
    Parameters { init_temp: corrected_temp(parameters.init_temp, DEFAULT_INIT_TEMP), ..parameters }
}

/// Why a run cannot start, if it cannot: parameters that cannot be corrected
/// come first, then a starting layout that is no layout of the keyboard
/// `keys`, then a fault of the configuration that the layout and the fixed
/// characters make.
pub open spec fn start_fault(
    parameters: Parameters,
    keys: PermutationLayoutGenerator,
    layout: Seq<char>,
    fixed: Seq<char>,
) -> Option<OptimizationError> {
    match parameter_fault(parameters) {
        Some(fault) => Some(OptimizationError::InvalidParameter(fault)),
        None => match keys.fault_of(layout) {
            Some(fault) => Some(OptimizationError::Parse(fault)),
            None => match config_fault(derived_slots(layout, fixed), fixed, layout) {
                Some(fault) => Some(OptimizationError::Config(fault)),
                None => None,
            },
        },
    }
}

/// The solution from which a run starts and the state in which the random
/// generator is then: the identity, which stands for the starting layout, or
/// a random permutation.
pub open spec fn opening_permutation(slots: nat, seed: u64, start_with_layout: bool) -> (
    Seq<usize>,
    u64,
) {
    if start_with_layout {
        (identity_spec(slots), seed)
    } else {
        random_permutation_spec(slots, seed)
    }
}

/// `cost` is the total cost that the run can have learned for the
/// permutation `p`: that of the result which the cache held for `p` when the
/// run began, if it held one, and else that of a result which the evaluation
/// function gave for the layout of `p`.
#[verifier::opaque]
pub open spec fn cost_allowed<E: Fn(&Layout) -> Result<EvaluationResult, EvaluationError>>(
    evaluate: E,
    known: Map<Seq<usize>, Seq<u64>>,
    base: Seq<char>,
    slots: Seq<char>,
    p: Seq<usize>,
    cost: u64,
) -> bool {
    if known.contains_key(p) {
        cost == total_of(known[p])
    } else {
        exists|costs: Seq<u64>|
            #[trigger] total_of(costs) == cost && evaluated_by(
                evaluate,
                layout_spec(base, slots, p),
                costs,
            )
    }
}

/// The cost and the verdict `input` are what the run can have learned in the
/// iteration that follows the state `before`: the cost is one of the
/// candidate proposed there, and the verdict is what `accept_worse` said of
/// the cost increase, the temperature and the random draw, where the
/// candidate costs more than the current solution. Where it does not, no
/// verdict is asked for and `false` stands in its place.
pub open spec fn input_allowed<E: Fn(&Layout) -> Result<EvaluationResult, EvaluationError>, A: Fn(u64, u64, u64) -> bool>(
    evaluate: E,
    accept_worse: A,
    known: Map<Seq<usize>, Seq<u64>>,
    base: Seq<char>,
    slots: Seq<char>,
    parameters: Parameters,
    before: SearchState,
    input: (u64, bool),
) -> bool {
    let judged = proposed(before, parameters);
    &&& cost_allowed(evaluate, known, base, slots, pending_candidate(judged), input.0)
    &&& if input.0 > before.current_cost {
        accept_worse.ensures(
            ((input.0 - before.current_cost) as u64, before.temperature, pending_draw(judged)),
            input.1,
        )
    } else {
        !input.1
    }
}

/// Every cost and verdict of `inputs` is what the run can have learned in
/// its iteration.
#[verifier::opaque]
pub open spec fn inputs_allowed<E: Fn(&Layout) -> Result<EvaluationResult, EvaluationError>, A: Fn(u64, u64, u64) -> bool>(
    evaluate: E,
    accept_worse: A,
    known: Map<Seq<usize>, Seq<u64>>,
    base: Seq<char>,
    slots: Seq<char>,
    parameters: Parameters,
    start: SearchState,
    inputs: Seq<(u64, bool)>,
) -> bool {
    forall|k: int|
        0 <= k < inputs.len() ==> input_allowed(
            evaluate,
            accept_worse,
            known,
            base,
            slots,
            parameters,
            run_state(start, parameters, inputs.take(k)),
            #[trigger] inputs[k],
        )
}

/// `outcome` is what a run reports that ended in the state `end`.
pub open spec fn outcome_of_run(
    outcome: AnnealingOutcome,
    base: Seq<char>,
    slots: Seq<char>,
    end: SearchState,
) -> bool {
    &&& outcome.best@ == end.best
    &&& outcome.best_cost == end.best_cost
    &&& outcome.last@ == end.current
    &&& outcome.last_cost == end.current_cost
    &&& outcome.iterations == end.iteration
    &&& outcome.layout@ == render_spec(base, slots, end.best)
}

/// `outcome` is the outcome of a run with the initial cost `initial_cost`
/// whose candidates had the costs and verdicts `inputs`.
pub open spec fn is_run_with<E: Fn(&Layout) -> Result<EvaluationResult, EvaluationError>, A: Fn(u64, u64, u64) -> bool>(
    outcome: AnnealingOutcome,
    evaluate: E,
    accept_worse: A,
    known: Map<Seq<usize>, Seq<u64>>,
    parameters: Parameters,
    base: Seq<char>,
    slots: Seq<char>,
    seed: u64,
    start_with_layout: bool,
    initial_cost: u64,
    inputs: Seq<(u64, bool)>,
) -> bool {
    let (initial, rng) = opening_permutation(slots.len(), seed, start_with_layout);
    let start = starting_state(parameters, rng, initial, initial_cost);
    &&& inputs.len() == parameters.max_iters
    &&& cost_allowed(evaluate, known, base, slots, initial, initial_cost)
    &&& inputs_allowed(evaluate, accept_worse, known, base, slots, parameters, start, inputs)
    &&& outcome_of_run(outcome, base, slots, run_state(start, parameters, inputs))
    &&& events_of(outcome.notifications@) == opening_events(parameters) + run_events(
        start,
        base,
        slots,
        parameters,
        inputs,
    )
}

/// The evaluation function has failed with `error` on the candidate that is
/// proposed in the state `before`, for which the cache held no result when
/// the run began.
pub open spec fn candidate_refused<E: Fn(&Layout) -> Result<EvaluationResult, EvaluationError>>(
    evaluate: E,
    known: Map<Seq<usize>, Seq<u64>>,
    base: Seq<char>,
    slots: Seq<char>,
    parameters: Parameters,
    before: SearchState,
    error: EvaluationError,
) -> bool {
    let candidate = pending_candidate(proposed(before, parameters));
    &&& !known.contains_key(candidate)
    &&& refused_by(evaluate, layout_spec(base, slots, candidate), error)
}

/// A run with the initial cost `initial_cost` has ended after the iterations
/// whose candidates had the costs and verdicts `inputs`, before its budget
/// was used up: the evaluation function has failed with `error` on the
/// candidate of the next iteration.
pub open spec fn refused_after<
    E: Fn(&Layout) -> Result<EvaluationResult, EvaluationError>,
    A: Fn(u64, u64, u64) -> bool,
>(
    error: EvaluationError,
    evaluate: E,
    accept_worse: A,
    known: Map<Seq<usize>, Seq<u64>>,
    parameters: Parameters,
    base: Seq<char>,
    slots: Seq<char>,
    seed: u64,
    start_with_layout: bool,
    initial_cost: u64,
    inputs: Seq<(u64, bool)>,
) -> bool {
    let (initial, rng) = opening_permutation(slots.len(), seed, start_with_layout);
    let start = starting_state(parameters, rng, initial, initial_cost);
    &&& inputs.len() < parameters.max_iters
    &&& cost_allowed(evaluate, known, base, slots, initial, initial_cost)
    &&& inputs_allowed(evaluate, accept_worse, known, base, slots, parameters, start, inputs)
    &&& candidate_refused(
        evaluate,
        known,
        base,
        slots,
        parameters,
        run_state(start, parameters, inputs),
        error,
    )
}

/// A run has ended because the evaluation function has failed with `error`:
/// on the solution from which the run was to start, or on the candidate of
/// an iteration, after iterations that went as the steps of the search say.
pub open spec fn run_refused<
    E: Fn(&Layout) -> Result<EvaluationResult, EvaluationError>,
    A: Fn(u64, u64, u64) -> bool,
>(
    error: EvaluationError,
    evaluate: E,
    accept_worse: A,
    known: Map<Seq<usize>, Seq<u64>>,
    parameters: Parameters,
    base: Seq<char>,
    slots: Seq<char>,
    seed: u64,
    start_with_layout: bool,
) -> bool {
    let initial = opening_permutation(slots.len(), seed, start_with_layout).0;
    ||| (!known.contains_key(initial) && refused_by(
        evaluate,
        layout_spec(base, slots, initial),
        error,
    ))
    ||| exists|initial_cost: u64, inputs: Seq<(u64, bool)>| #[trigger]
        refused_after(
            error,
            evaluate,
            accept_worse,
            known,
            parameters,
            base,
            slots,
            seed,
            start_with_layout,
            initial_cost,
            inputs,
        )
}

/// `outcome` is the outcome of a run of the search: of the steps of the
/// search, made from the starting solution one iteration after the other,
/// with costs and verdicts that the evaluation and `accept_worse` gave.
pub open spec fn is_run<E: Fn(&Layout) -> Result<EvaluationResult, EvaluationError>, A: Fn(u64, u64, u64) -> bool>(
    outcome: AnnealingOutcome,
    evaluate: E,
    accept_worse: A,
    known: Map<Seq<usize>, Seq<u64>>,
    parameters: Parameters,
    base: Seq<char>,
    slots: Seq<char>,
    seed: u64,
    start_with_layout: bool,
) -> bool {
    exists|initial_cost: u64, inputs: Seq<(u64, bool)>| #[trigger]
        is_run_with(
            outcome,
            evaluate,
            accept_worse,
            known,
            parameters,
            base,
            slots,
            seed,
            start_with_layout,
            initial_cost,
            inputs,
        )
}

/// The evaluation function is single-valued: for layouts with the same keys
/// it gives results with the same costs, where it gives results.
pub open spec fn single_valued_evaluation<E: Fn(&Layout) -> Result<EvaluationResult, EvaluationError>>(evaluate: E) -> bool {
    forall|first: Layout, second: Layout, a: EvaluationResult, b: EvaluationResult|
        first@ == second@ && #[trigger] evaluate.ensures((&first,), Ok(a))
            && #[trigger] evaluate.ensures((&second,), Ok(b)) ==> a@ == b@
}

/// The verdict is single-valued: for the same cost increase, temperature and
/// draw it is the same.
pub open spec fn single_valued_verdict<A: Fn(u64, u64, u64) -> bool>(accept_worse: A) -> bool {
    forall|increase: u64, temperature: u64, draw: u64, a: bool, b: bool|
        #[trigger] accept_worse.ensures((increase, temperature, draw), a)
            && #[trigger] accept_worse.ensures((increase, temperature, draw), b) ==> a == b
}

/// With a single-valued evaluation, the cost that a run can learn for a
/// permutation is one cost.
pub proof fn lemma_cost_determined<E: Fn(&Layout) -> Result<EvaluationResult, EvaluationError>>(
    evaluate: E,
    known: Map<Seq<usize>, Seq<u64>>,
    base: Seq<char>,
    slots: Seq<char>,
    p: Seq<usize>,
    first: u64,
    second: u64,
)
    requires
        single_valued_evaluation(evaluate),
        cost_allowed(evaluate, known, base, slots, p, first),
        cost_allowed(evaluate, known, base, slots, p, second),
    ensures
        first == second,
{
    reveal(cost_allowed);
    if !known.contains_key(p) {
        let keys = layout_spec(base, slots, p);
        let a = choose|costs: Seq<u64>|
            #[trigger] total_of(costs) == first && evaluated_by(evaluate, keys, costs);
        let b = choose|costs: Seq<u64>|
            #[trigger] total_of(costs) == second && evaluated_by(evaluate, keys, costs);
        let (la, ra) = choose|layout: Layout, result: EvaluationResult|
            layout@ == keys && result@ == a && #[trigger] evaluate.ensures((&layout,), Ok(result));
        let (lb, rb) = choose|layout: Layout, result: EvaluationResult|
            layout@ == keys && result@ == b && #[trigger] evaluate.ensures((&layout,), Ok(result));
        assert(ra@ == rb@);
        assert(a == b);
    }
}

/// The inputs of a run without its last iteration are allowed where those of
/// the run are.
pub proof fn lemma_inputs_allowed_before<
    E: Fn(&Layout) -> Result<EvaluationResult, EvaluationError>,
    A: Fn(u64, u64, u64) -> bool,
>(
    evaluate: E,
    accept_worse: A,
    known: Map<Seq<usize>, Seq<u64>>,
    base: Seq<char>,
    slots: Seq<char>,
    parameters: Parameters,
    start: SearchState,
    inputs: Seq<(u64, bool)>,
)
    requires
        inputs.len() > 0,
        inputs_allowed(evaluate, accept_worse, known, base, slots, parameters, start, inputs),
    ensures
        inputs_allowed(
            evaluate,
            accept_worse,
            known,
            base,
            slots,
            parameters,
            start,
            inputs.drop_last(),
        ),
        input_allowed(
            evaluate,
            accept_worse,
            known,
            base,
            slots,
            parameters,
            run_state(start, parameters, inputs.drop_last()),
            inputs.last(),
        ),
{
    reveal(inputs_allowed);
    let front = inputs.drop_last();
    assert forall|k: int| 0 <= k < front.len() implies input_allowed(
        evaluate,
        accept_worse,
        known,
        base,
        slots,
        parameters,
        run_state(start, parameters, front.take(k)),
        #[trigger] front[k],
    ) by {
        assert(front.take(k) == inputs.take(k));
        assert(front[k] == inputs[k]);
    }
    assert(inputs.take(inputs.len() - 1) == front);
    assert(inputs[inputs.len() - 1] == inputs.last());
}

/// With a single-valued evaluation and verdict, the costs and verdicts of a
/// run are determined by its start: two runs of the same length from the
/// same state learn the same.
pub proof fn lemma_inputs_determined<
    E: Fn(&Layout) -> Result<EvaluationResult, EvaluationError>,
    A: Fn(u64, u64, u64) -> bool,
>(
    evaluate: E,
    accept_worse: A,
    known: Map<Seq<usize>, Seq<u64>>,
    base: Seq<char>,
    slots: Seq<char>,
    parameters: Parameters,
    start: SearchState,
    first: Seq<(u64, bool)>,
    second: Seq<(u64, bool)>,
)
    requires
        single_valued_evaluation(evaluate),
        single_valued_verdict(accept_worse),
        first.len() == second.len(),
        inputs_allowed(evaluate, accept_worse, known, base, slots, parameters, start, first),
        inputs_allowed(evaluate, accept_worse, known, base, slots, parameters, start, second),
    ensures
        first == second,
    decreases first.len(),
{
    if first.len() == 0 {
        assert(first =~= second);
    } else {
        lemma_inputs_allowed_before(
            evaluate,
            accept_worse,
            known,
            base,
            slots,
            parameters,
            start,
            first,
        );
        lemma_inputs_allowed_before(
            evaluate,
            accept_worse,
            known,
            base,
            slots,
            parameters,
            start,
            second,
        );
        lemma_inputs_determined(
            evaluate,
            accept_worse,
            known,
            base,
            slots,
            parameters,
            start,
            first.drop_last(),
            second.drop_last(),
        );
        let before = run_state(start, parameters, first.drop_last());
        let judged = proposed(before, parameters);
        lemma_cost_determined(
            evaluate,
            known,
            base,
            slots,
            pending_candidate(judged),
            first.last().0,
            second.last().0,
        );
        assert(first.last().1 == second.last().1);
        assert(first.last() == second.last());
        assert(first =~= first.drop_last().push(first.last()));
        assert(second =~= second.drop_last().push(second.last()));
    }
}

/// A run is determined by its seed, its configuration, its evaluation and
/// what the cache held when it began: with a single-valued evaluation and
/// verdict, two runs with the same arguments end with the same solutions and
/// costs, and their callbacks are told the same.
pub proof fn lemma_run_determined<
    E: Fn(&Layout) -> Result<EvaluationResult, EvaluationError>,
    A: Fn(u64, u64, u64) -> bool,
>(
    first: AnnealingOutcome,
    second: AnnealingOutcome,
    evaluate: E,
    accept_worse: A,
    known: Map<Seq<usize>, Seq<u64>>,
    parameters: Parameters,
    base: Seq<char>,
    slots: Seq<char>,
    seed: u64,
    start_with_layout: bool,
)
    requires
        single_valued_evaluation(evaluate),
        single_valued_verdict(accept_worse),
        is_run(
            first,
            evaluate,
            accept_worse,
            known,
            parameters,
            base,
            slots,
            seed,
            start_with_layout,
        ),
        is_run(
            second,
            evaluate,
            accept_worse,
            known,
            parameters,
            base,
            slots,
            seed,
            start_with_layout,
        ),
    ensures
        first.layout@ == second.layout@,
        first.best@ == second.best@,
        first.best_cost == second.best_cost,
        first.last@ == second.last@,
        first.last_cost == second.last_cost,
        first.iterations == second.iterations,
        events_of(first.notifications@) == events_of(second.notifications@),
{
    let (cost_a, inputs_a) = choose|initial_cost: u64, inputs: Seq<(u64, bool)>| #[trigger]
        is_run_with(
            first,
            evaluate,
            accept_worse,
            known,
            parameters,
            base,
            slots,
            seed,
            start_with_layout,
            initial_cost,
            inputs,
        );
    let (cost_b, inputs_b) = choose|initial_cost: u64, inputs: Seq<(u64, bool)>| #[trigger]
        is_run_with(
            second,
            evaluate,
            accept_worse,
            known,
            parameters,
            base,
            slots,
            seed,
            start_with_layout,
            initial_cost,
            inputs,
        );
    let (initial, rng) = opening_permutation(slots.len(), seed, start_with_layout);
    lemma_cost_determined(evaluate, known, base, slots, initial, cost_a, cost_b);
    let start = starting_state(parameters, rng, initial, cost_a);
    lemma_inputs_determined(
        evaluate,
        accept_worse,
        known,
        base,
        slots,
        parameters,
        start,
        inputs_a,
        inputs_b,
    );
}

/// No progress is reported before the first iteration.
pub proof fn lemma_opening_progress(parameters: Parameters)
    ensures
        progress_of(opening_events(parameters)) == Seq::<u64>::empty(),
{
    let opening = opening_events(parameters);
    assert(opening.drop_last() == Seq::<Event>::empty());
    assert(progress_of(opening.drop_last()) == Seq::<u64>::empty());
    assert(opening.last() == Event::Budget(parameters.max_iters));
}

/// The callback that `notification` is meant for was called with what the
/// notification holds, and has returned: the number of iterations went to
/// `max_iters_callback`, an iteration reached to `update_callback`, a new
/// best solution with its cost to `new_best_callback`.
pub open spec fn delivered<M: Fn(u64), U: Fn(u64), N: Fn(&str, u64)>(
    notification: Notification,
    max_iters_callback: M,
    update_callback: U,
    new_best_callback: N,
) -> bool {
    match notification {
        Notification::Budget(iterations) => max_iters_callback.ensures((iterations,), ()),
        Notification::Progress(iteration) => update_callback.ensures((iteration,), ()),
        Notification::NewBest { layout, cost } => exists|text: &str|
            text@ == layout@ && #[trigger] new_best_callback.ensures((text, cost), ()),
    }
}

/// Every notification of `trace` was delivered to its callback.
pub open spec fn all_delivered<M: Fn(u64), U: Fn(u64), N: Fn(&str, u64)>(
    trace: Seq<Notification>,
    max_iters_callback: M,
    update_callback: U,
    new_best_callback: N,
) -> bool {
    forall|k: int|
        0 <= k < trace.len() ==> delivered(
            #[trigger] trace[k],
            max_iters_callback,
            update_callback,
            new_best_callback,
        )
}

/// Tells the callbacks what `told` holds, in order: each notification goes
/// to its callback in one call.
fn announce<M: Fn(u64), U: Fn(u64), N: Fn(&str, u64)>(
    told: &Vec<Notification>,
    max_iters_callback: &M,
    update_callback: &U,
    new_best_callback: &N,
)
    requires
        forall|iterations: u64| #[trigger] max_iters_callback.requires((iterations,)),
        forall|iteration: u64| #[trigger] update_callback.requires((iteration,)),
        forall|layout: &str, cost: u64| #[trigger] new_best_callback.requires((layout, cost)),
    ensures
        all_delivered(told@, *max_iters_callback, *update_callback, *new_best_callback),
{
    let mut i: usize = 0;
    while i < told.len()
        invariant
            i <= told.len(),
            forall|iterations: u64| #[trigger] max_iters_callback.requires((iterations,)),
            forall|iteration: u64| #[trigger] update_callback.requires((iteration,)),
            forall|layout: &str, cost: u64| #[trigger] new_best_callback.requires((layout, cost)),
            forall|k: int|
                0 <= k < i ==> delivered(
                    #[trigger] told@[k],
                    *max_iters_callback,
                    *update_callback,
                    *new_best_callback,
                ),
        decreases told.len() - i,
    {
        match &told[i] {
            Notification::Budget(iterations) => {
                max_iters_callback(*iterations);
            },
            Notification::Progress(iteration) => {
                update_callback(*iteration);
            },
            Notification::NewBest { layout, cost } => {
                let text: &str = layout.as_str();
                new_best_callback(text, *cost);
                assert(text@ == layout@ && new_best_callback.ensures((text, *cost), ()));
            },
        }
        assert(delivered(told@[i as int], *max_iters_callback, *update_callback, *new_best_callback));
        i += 1;
    }
}

/// What was delivered stays delivered when more is delivered after it.
proof fn lemma_delivered_further<M: Fn(u64), U: Fn(u64), N: Fn(&str, u64)>(
    first: Seq<Notification>,
    second: Seq<Notification>,
    max_iters_callback: M,
    update_callback: U,
    new_best_callback: N,
)
    requires
        all_delivered(first, max_iters_callback, update_callback, new_best_callback),
        all_delivered(second, max_iters_callback, update_callback, new_best_callback),
    ensures
        all_delivered(first + second, max_iters_callback, update_callback, new_best_callback),
{
    assert forall|k: int| 0 <= k < (first + second).len() implies delivered(
        #[trigger] (first + second)[k],
        max_iters_callback,
        update_callback,
        new_best_callback,
    ) by {
        if k < first.len() {
            assert((first + second)[k] == first[k]);
        } else {
            assert((first + second)[k] == second[k - first.len()]);
        }
    }
}

/// What a cache that grew from `known` to `middle` and then to `now` holds,
/// it holds from `known` or from the evaluation function.
pub proof fn lemma_grown_further<E: Fn(&Layout) -> Result<EvaluationResult, EvaluationError>>(
    evaluate: E,
    known: Map<Seq<usize>, Seq<u64>>,
    middle: Map<Seq<usize>, Seq<u64>>,
    now: Map<Seq<usize>, Seq<u64>>,
    base: Seq<char>,
    slots: Seq<char>,
)
    requires
        grown_from(evaluate, known, middle, base, slots),
        grown_from(evaluate, middle, now, base, slots),
    ensures
        grown_from(evaluate, known, now, base, slots),
{
    reveal(grown_from);
    assert forall|p: Seq<usize>| #[trigger] now.contains_key(p) implies (known.contains_key(p)
        && known[p] == now[p]) || evaluated_by(evaluate, layout_spec(base, slots, p), now[p]) by {
        if middle.contains_key(p) && middle[p] == now[p] {
            assert(middle.contains_key(p));
        }
    }
}

/// A cost that was learned with a cache grown from `known` can have been
/// learned with `known`.
pub proof fn lemma_cost_allowed_earlier<E: Fn(&Layout) -> Result<EvaluationResult, EvaluationError>>(
    evaluate: E,
    known: Map<Seq<usize>, Seq<u64>>,
    middle: Map<Seq<usize>, Seq<u64>>,
    base: Seq<char>,
    slots: Seq<char>,
    p: Seq<usize>,
    cost: u64,
)
    requires
        known.submap_of(middle),
        grown_from(evaluate, known, middle, base, slots),
        cost_allowed(evaluate, middle, base, slots, p, cost),
    ensures
        cost_allowed(evaluate, known, base, slots, p, cost),
{
    reveal(grown_from);
    reveal(cost_allowed);
    if known.contains_key(p) {
        assert(known.dom().contains(p));
        assert(middle.contains_key(p) && known[p] == middle[p]);
    } else if middle.contains_key(p) {
        assert(evaluated_by(evaluate, layout_spec(base, slots, p), middle[p]));
        assert(total_of(middle[p]) == cost);
    }
}

/// One more iteration extends a run: the state, the events and the inputs
/// of the run with one more cost and verdict are those of the run so far,
/// followed by those of the iteration.
pub proof fn lemma_run_extends<E: Fn(&Layout) -> Result<EvaluationResult, EvaluationError>, A: Fn(u64, u64, u64) -> bool>(
    evaluate: E,
    accept_worse: A,
    known: Map<Seq<usize>, Seq<u64>>,
    base: Seq<char>,
    slots: Seq<char>,
    parameters: Parameters,
    start: SearchState,
    inputs: Seq<(u64, bool)>,
    input: (u64, bool),
)
    requires
        inputs_allowed(evaluate, accept_worse, known, base, slots, parameters, start, inputs),
        input_allowed(
            evaluate,
            accept_worse,
            known,
            base,
            slots,
            parameters,
            run_state(start, parameters, inputs),
            input,
        ),
    ensures
        inputs_allowed(
            evaluate,
            accept_worse,
            known,
            base,
            slots,
            parameters,
            start,
            inputs.push(input),
        ),
        run_state(start, parameters, inputs.push(input)) == concluded(
            proposed(run_state(start, parameters, inputs), parameters),
            parameters,
            input.0,
            input.1,
        ),
        run_events(start, base, slots, parameters, inputs.push(input)) == run_events(
            start,
            base,
            slots,
            parameters,
            inputs,
        ) + conclusion_events(
            proposed(run_state(start, parameters, inputs), parameters),
            parameters,
            render_spec(
                base,
                slots,
                pending_candidate(proposed(run_state(start, parameters, inputs), parameters)),
            ),
            input.0,
            input.1,
        ),
{
    reveal(inputs_allowed);
    let longer = inputs.push(input);
    assert(longer.drop_last() == inputs);
    assert(longer.last() == input);
    assert forall|k: int| 0 <= k < longer.len() implies input_allowed(
        evaluate,
        accept_worse,
        known,
        base,
        slots,
        parameters,
        run_state(start, parameters, longer.take(k)),
        #[trigger] longer[k],
    ) by {
        if k < inputs.len() {
            assert(longer.take(k) == inputs.take(k));
            assert(longer[k] == inputs[k]);
        } else {
            assert(longer.take(k) == inputs);
        }
    }
}

/// Makes one iteration of the search: proposes a neighbour of the current
/// solution, learns its result from `cache` or, where the cache has none,
/// from the evaluator, asks `accept_worse` for a verdict where the neighbour
/// costs more than the current solution, and judges the neighbour. Returns
/// what the observer is to be told, the cost that was learned and the
/// verdict. Where the evaluation fails, its failure is returned; the
/// neighbour is then still pending and nothing else has changed.
pub fn iterate<E: Fn(&Layout) -> Result<EvaluationResult, EvaluationError>, A: Fn(u64, u64, u64) -> bool>(
    search: &mut Annealer,
    cache: &mut Cache,
    layout_evaluator: &LayoutEvaluator<E>,
    accept_worse: &A,
) -> (made: Result<(Vec<Notification>, u64, bool), EvaluationError>)
    requires
        old(search).wf(),
        !old(search).exhausted(),
        old(cache).wf(),
        layout_evaluator.wf(),
        forall|increase: u64, temperature: u64, draw: u64| #[trigger]
            accept_worse.requires((increase, temperature, draw)),
    ensures
        final(search).wf(),
        final(search).layouts() == old(search).layouts(),
        final(search).settings() == old(search).settings(),
        final(cache).wf(),
        old(cache)@.submap_of(final(cache)@),
        grown_from(
            layout_evaluator.scorer(),
            old(cache)@,
            final(cache)@,
            old(search).layouts().base(),
            old(search).layouts().movable(),
        ),
        match made {
            Ok((told, cost, verdict)) => {
                &&& input_allowed(
                    layout_evaluator.scorer(),
                    *accept_worse,
                    old(cache)@,
                    old(search).layouts().base(),
                    old(search).layouts().movable(),
                    old(search).settings(),
                    old(search)@,
                    (cost, verdict),
                )
                &&& final(search)@ == concluded(
                    proposed(old(search)@, old(search).settings()),
                    old(search).settings(),
                    cost,
                    verdict,
                )
                &&& events_of(told@) == conclusion_events(
                    proposed(old(search)@, old(search).settings()),
                    old(search).settings(),
                    old(search).layouts().render(
                        pending_candidate(proposed(old(search)@, old(search).settings())),
                    ),
                    cost,
                    verdict,
                )
            },
            Err(error) => {
                &&& final(cache)@ == old(cache)@
                &&& final(search)@ == proposed(old(search)@, old(search).settings())
                &&& candidate_refused(
                    layout_evaluator.scorer(),
                    old(cache)@,
                    old(search).layouts().base(),
                    old(search).layouts().movable(),
                    old(search).settings(),
                    old(search)@,
                    error,
                )
            },
        },
{
    let ghost remembered = cache@;
    proof {
        reveal(grown_from);
        reveal(cost_allowed);
    }
    let (candidate, draw) = search.propose();
    let result: EvaluationResult = match evaluate_through(
        cache,
        search.generator(),
        layout_evaluator,
        &candidate,
    ) {
        Ok(result) => result,
        Err(OptimizationError::Evaluation(error)) => {
            return Err(error);
        },
        Err(_) => EvaluationResult::new(Vec::new()),
    };
    let cost: u64 = result.total_cost();
    proof {
        assert(total_of(result@) == cost);
        assert(cost_allowed(
            layout_evaluator.scorer(),
            remembered,
            search.layouts().base(),
            search.layouts().movable(),
            candidate@,
            cost,
        ));
        assert forall|p: Seq<usize>| #[trigger] cache@.contains_key(p) implies (
        remembered.contains_key(p) && remembered[p] == cache@[p]) || evaluated_by(
            layout_evaluator.scorer(),
            layout_spec(search.layouts().base(), search.layouts().movable(), p),
            cache@[p],
        ) by {
            if p != candidate@ {
                assert(remembered.contains_key(p));
            }
        }
    }
    let verdict: bool = if search.needs_verdict(cost) {
        accept_worse(cost - search.current_cost(), search.temperature(), draw)
    } else {
        false
    };
    let told: Vec<Notification> = search.conclude(cost, verdict);
    Ok((told, cost, verdict))
}

/// What holds of a run between two iterations: the search is in the state
/// that the inputs so far lead to, the callbacks were told the events of
/// these inputs, and the cache has grown from what was known.
#[verifier::opaque]
pub open spec fn underway<E: Fn(&Layout) -> Result<EvaluationResult, EvaluationError>, A: Fn(u64, u64, u64) -> bool>(
    search: Annealer,
    cache: Cache,
    trace: Seq<Notification>,
    layout_evaluator: LayoutEvaluator<E>,
    accept_worse: A,
    known: Map<Seq<usize>, Seq<u64>>,
    start: SearchState,
    inputs: Seq<(u64, bool)>,
) -> bool {
    let base = search.layouts().base();
    let slots = search.layouts().movable();
    let parameters = search.settings();
    &&& search.wf()
    &&& cache.wf()
    &&& layout_evaluator.wf()
    &&& state_valid(start, parameters, slots.len())
    &&& start.iteration == 0
    &&& inputs.len() == search@.iteration
    &&& search@ == run_state(start, parameters, inputs)
    &&& events_of(trace) == opening_events(parameters) + run_events(
        start,
        base,
        slots,
        parameters,
        inputs,
    )
    &&& inputs_allowed(
        layout_evaluator.scorer(),
        accept_worse,
        known,
        base,
        slots,
        parameters,
        start,
        inputs,
    )
    &&& grown_from(layout_evaluator.scorer(), known, cache@, base, slots)
    &&& known.submap_of(cache@)
}

/// A cache holds what it holds.
proof fn lemma_same_keeps(known: Map<Seq<usize>, Seq<u64>>)
    ensures
        known.submap_of(known),
{
}

/// The cost that a run learns for its starting solution is allowed, and the
/// cache has grown by at most that entry.
proof fn lemma_first_cost<E: Fn(&Layout) -> Result<EvaluationResult, EvaluationError>>(
    evaluate: E,
    known: Map<Seq<usize>, Seq<u64>>,
    now: Map<Seq<usize>, Seq<u64>>,
    base: Seq<char>,
    slots: Seq<char>,
    p: Seq<usize>,
    costs: Seq<u64>,
)
    requires
        now == if known.contains_key(p) {
            known
        } else {
            known.insert(p, costs)
        },
        if known.contains_key(p) {
            costs == known[p]
        } else {
            evaluated_by(evaluate, layout_spec(base, slots, p), costs)
        },
    ensures
        cost_allowed(evaluate, known, base, slots, p, total_of(costs)),
        grown_from(evaluate, known, now, base, slots),
        known.submap_of(now),
{
    reveal(cost_allowed);
    reveal(grown_from);
    assert(total_of(costs) == total_of(costs));
    if !known.contains_key(p) {
        assert(evaluated_by(evaluate, layout_spec(base, slots, p), costs));
    }
}

/// A run without iterations has no inputs, and nothing is to be said of
/// them.
proof fn lemma_no_inputs<E: Fn(&Layout) -> Result<EvaluationResult, EvaluationError>, A: Fn(u64, u64, u64) -> bool>(
    evaluate: E,
    accept_worse: A,
    known: Map<Seq<usize>, Seq<u64>>,
    base: Seq<char>,
    slots: Seq<char>,
    parameters: Parameters,
    start: SearchState,
)
    ensures
        inputs_allowed(
            evaluate,
            accept_worse,
            known,
            base,
            slots,
            parameters,
            start,
            Seq::<(u64, bool)>::empty(),
        ),
{
    reveal(inputs_allowed);
}

/// What `underway` says, part by part.
proof fn lemma_underway_parts<E: Fn(&Layout) -> Result<EvaluationResult, EvaluationError>, A: Fn(u64, u64, u64) -> bool>(
    search: Annealer,
    cache: Cache,
    trace: Seq<Notification>,
    layout_evaluator: LayoutEvaluator<E>,
    accept_worse: A,
    known: Map<Seq<usize>, Seq<u64>>,
    start: SearchState,
    inputs: Seq<(u64, bool)>,
)
    ensures
        underway(search, cache, trace, layout_evaluator, accept_worse, known, start, inputs) <==> {
            &&& search.wf()
            &&& cache.wf()
            &&& layout_evaluator.wf()
            &&& state_valid(start, search.settings(), search.layouts().movable().len())
            &&& start.iteration == 0
            &&& inputs.len() == search@.iteration
            &&& search@ == run_state(start, search.settings(), inputs)
            &&& events_of(trace) == opening_events(search.settings()) + run_events(
                start,
                search.layouts().base(),
                search.layouts().movable(),
                search.settings(),
                inputs,
            )
            &&& inputs_allowed(
                layout_evaluator.scorer(),
                accept_worse,
                known,
                search.layouts().base(),
                search.layouts().movable(),
                search.settings(),
                start,
                inputs,
            )
            &&& grown_from(
                layout_evaluator.scorer(),
                known,
                cache@,
                search.layouts().base(),
                search.layouts().movable(),
            )
            &&& known.submap_of(cache@)
        },
{
    reveal(underway);
}

/// What the callbacks were told after one more iteration is what they were
/// told before, followed by the events of the iteration.
proof fn lemma_trace_extends(
    trace_before: Seq<Notification>,
    told: Seq<Notification>,
    opening: Seq<Event>,
    earlier: Seq<Event>,
    added: Seq<Event>,
    later: Seq<Event>,
)
    requires
        events_of(trace_before) == opening + earlier,
        events_of(told) == added,
        later == earlier + added,
    ensures
        events_of(trace_before + told) == opening + later,
{
    assert(events_of(trace_before + told) =~= events_of(trace_before) + events_of(told));
    assert((opening + earlier) + added =~= opening + (earlier + added));
}

/// A cost and a verdict that were learned with a cache grown from `known`
/// can have been learned with `known`.
proof fn lemma_input_allowed_earlier<
    E: Fn(&Layout) -> Result<EvaluationResult, EvaluationError>,
    A: Fn(u64, u64, u64) -> bool,
>(
    evaluate: E,
    accept_worse: A,
    known: Map<Seq<usize>, Seq<u64>>,
    middle: Map<Seq<usize>, Seq<u64>>,
    base: Seq<char>,
    slots: Seq<char>,
    parameters: Parameters,
    before: SearchState,
    input: (u64, bool),
)
    requires
        known.submap_of(middle),
        grown_from(evaluate, known, middle, base, slots),
        input_allowed(evaluate, accept_worse, middle, base, slots, parameters, before, input),
    ensures
        input_allowed(evaluate, accept_worse, known, base, slots, parameters, before, input),
{
    lemma_cost_allowed_earlier(
        evaluate,
        known,
        middle,
        base,
        slots,
        pending_candidate(proposed(before, parameters)),
        input.0,
    );
}

/// A run that is under way is still under way after one more iteration.
proof fn lemma_underway_extends<
    E: Fn(&Layout) -> Result<EvaluationResult, EvaluationError>,
    A: Fn(u64, u64, u64) -> bool,
>(
    before: Annealer,
    after: Annealer,
    cache_before: Cache,
    cache_after: Cache,
    trace_before: Seq<Notification>,
    told: Seq<Notification>,
    layout_evaluator: LayoutEvaluator<E>,
    accept_worse: A,
    known: Map<Seq<usize>, Seq<u64>>,
    start: SearchState,
    inputs: Seq<(u64, bool)>,
    cost: u64,
    verdict: bool,
)
    requires
        underway(
            before,
            cache_before,
            trace_before,
            layout_evaluator,
            accept_worse,
            known,
            start,
            inputs,
        ),
        !before.exhausted(),
        after.wf(),
        after.layouts() == before.layouts(),
        after.settings() == before.settings(),
        cache_after.wf(),
        cache_before@.submap_of(cache_after@),
        grown_from(
            layout_evaluator.scorer(),
            cache_before@,
            cache_after@,
            before.layouts().base(),
            before.layouts().movable(),
        ),
        input_allowed(
            layout_evaluator.scorer(),
            accept_worse,
            cache_before@,
            before.layouts().base(),
            before.layouts().movable(),
            before.settings(),
            before@,
            (cost, verdict),
        ),
        after@ == concluded(
            proposed(before@, before.settings()),
            before.settings(),
            cost,
            verdict,
        ),
        events_of(told) == conclusion_events(
            proposed(before@, before.settings()),
            before.settings(),
            before.layouts().render(pending_candidate(proposed(before@, before.settings()))),
            cost,
            verdict,
        ),
    ensures
        underway(
            after,
            cache_after,
            trace_before + told,
            layout_evaluator,
            accept_worse,
            known,
            start,
            inputs.push((cost, verdict)),
        ),
        after@.iteration == before@.iteration + 1,
{
    reveal(underway);
    let base = before.layouts().base();
    let slots = before.layouts().movable();
    let parameters = before.settings();
    let scorer = layout_evaluator.scorer();
    let judged = proposed(before@, parameters);
    let longer = inputs.push((cost, verdict));
    assert(before@.iteration < parameters.max_iters);
    assert(after@.iteration == before@.iteration + 1);
    lemma_grown_further(scorer, known, cache_before@, cache_after@, base, slots);
    vstd::map_lib::lemma_submap_of_trans(known, cache_before@, cache_after@);
    lemma_input_allowed_earlier(
        scorer,
        accept_worse,
        known,
        cache_before@,
        base,
        slots,
        parameters,
        before@,
        (cost, verdict),
    );
    lemma_run_extends(
        scorer,
        accept_worse,
        known,
        base,
        slots,
        parameters,
        start,
        inputs,
        (cost, verdict),
    );
    lemma_trace_extends(
        trace_before,
        told,
        opening_events(parameters),
        run_events(start, base, slots, parameters, inputs),
        events_of(told),
        run_events(start, base, slots, parameters, longer),
    );
}

/// A run that is under way and whose next candidate is refused has ended as
/// `refused_after` says, and its cache holds what it held when the run
/// began.
proof fn lemma_refused_after<
    E: Fn(&Layout) -> Result<EvaluationResult, EvaluationError>,
    A: Fn(u64, u64, u64) -> bool,
>(
    error: EvaluationError,
    search: Annealer,
    cache: Cache,
    trace: Seq<Notification>,
    layout_evaluator: LayoutEvaluator<E>,
    accept_worse: A,
    known: Map<Seq<usize>, Seq<u64>>,
    seed: u64,
    start_with_layout: bool,
    initial: Seq<usize>,
    opening: u64,
    initial_cost: u64,
    inputs: Seq<(u64, bool)>,
)
    requires
        underway(
            search,
            cache,
            trace,
            layout_evaluator,
            accept_worse,
            known,
            starting_state(search.settings(), opening, initial, initial_cost),
            inputs,
        ),
        !search.exhausted(),
        opening_permutation(search.layouts().movable().len(), seed, start_with_layout) == (
            initial,
            opening,
        ),
        cost_allowed(
            layout_evaluator.scorer(),
            known,
            search.layouts().base(),
            search.layouts().movable(),
            initial,
            initial_cost,
        ),
        candidate_refused(
            layout_evaluator.scorer(),
            known,
            search.layouts().base(),
            search.layouts().movable(),
            search.settings(),
            search@,
            error,
        ),
    ensures
        refused_after(
            error,
            layout_evaluator.scorer(),
            accept_worse,
            known,
            search.settings(),
            search.layouts().base(),
            search.layouts().movable(),
            seed,
            start_with_layout,
            initial_cost,
            inputs,
        ),
        known.submap_of(cache@),
        cache.wf(),
{
    lemma_underway_parts(
        search,
        cache,
        trace,
        layout_evaluator,
        accept_worse,
        known,
        starting_state(search.settings(), opening, initial, initial_cost),
        inputs,
    );
}

/// Makes one iteration of a run and tells the callbacks what happened.
/// Where the evaluation fails, nothing is told and the failure is returned.
fn advance_run<
    E: Fn(&Layout) -> Result<EvaluationResult, EvaluationError>,
    A: Fn(u64, u64, u64) -> bool,
    M: Fn(u64),
    U: Fn(u64),
    N: Fn(&str, u64),
>(
    search: &mut Annealer,
    cache: &mut Cache,
    trace: &mut Vec<Notification>,
    layout_evaluator: &LayoutEvaluator<E>,
    accept_worse: &A,
    max_iters_callback: &M,
    update_callback: &U,
    new_best_callback: &N,
    Ghost(known): Ghost<Map<Seq<usize>, Seq<u64>>>,
    Ghost(start): Ghost<SearchState>,
    Ghost(inputs): Ghost<Seq<(u64, bool)>>,
) -> (longer: Result<Ghost<Seq<(u64, bool)>>, EvaluationError>)
    requires
        underway(
            *old(search),
            *old(cache),
            old(trace)@,
            *layout_evaluator,
            *accept_worse,
            known,
            start,
            inputs,
        ),
        !old(search).exhausted(),
        all_delivered(old(trace)@, *max_iters_callback, *update_callback, *new_best_callback),
        forall|increase: u64, temperature: u64, draw: u64| #[trigger]
            accept_worse.requires((increase, temperature, draw)),
        forall|iterations: u64| #[trigger] max_iters_callback.requires((iterations,)),
        forall|iteration: u64| #[trigger] update_callback.requires((iteration,)),
        forall|layout: &str, cost: u64| #[trigger] new_best_callback.requires((layout, cost)),
    ensures
        final(cache).wf(),
        final(search).layouts() == old(search).layouts(),
        final(search).settings() == old(search).settings(),
        match longer {
            Ok(extended) => {
                &&& all_delivered(
                    final(trace)@,
                    *max_iters_callback,
                    *update_callback,
                    *new_best_callback,
                )
                &&& underway(
                    *final(search),
                    *final(cache),
                    final(trace)@,
                    *layout_evaluator,
                    *accept_worse,
                    known,
                    start,
                    extended@,
                )
                &&& final(search)@.iteration == old(search)@.iteration + 1
            },
            Err(error) => {
                &&& final(cache)@ == old(cache)@
                &&& candidate_refused(
                    layout_evaluator.scorer(),
                    known,
                    old(search).layouts().base(),
                    old(search).layouts().movable(),
                    old(search).settings(),
                    old(search)@,
                    error,
                )
            },
        },
{
    proof {
        lemma_underway_parts(
            *search,
            *cache,
            trace@,
            *layout_evaluator,
            *accept_worse,
            known,
            start,
            inputs,
        );
    }
    let (told, cost, verdict) = match iterate(search, cache, layout_evaluator, accept_worse) {
        Ok(made) => made,
        Err(error) => {
            proof {
                let candidate = pending_candidate(
                    proposed(old(search)@, old(search).settings()),
                );
                if known.contains_key(candidate) {
                    assert(known.dom().contains(candidate));
                    assert(old(cache)@.contains_key(candidate));
                }
            }
            return Err(error);
        },
    };
    announce(&told, max_iters_callback, update_callback, new_best_callback);
    let ghost added = told@;
    let mut told = told;
    trace.append(&mut told);
    proof {
        lemma_delivered_further(
            old(trace)@,
            added,
            *max_iters_callback,
            *update_callback,
            *new_best_callback,
        );
        lemma_underway_extends(
            *old(search),
            *search,
            *old(cache),
            *cache,
            old(trace)@,
            added,
            *layout_evaluator,
            *accept_worse,
            known,
            start,
            inputs,
            cost,
            verdict,
        );
    }
    Ok(Ghost(inputs.push((cost, verdict))))
}

/// Searches for a layout of low cost by simulated annealing, from the layout
/// `layout_str` of the keyboard of `layout_evaluator`, in which the
/// characters of `fixed_characters` stay where they are. The search starts
/// from `layout_str` itself with `start_with_layout`, and else from a random
/// arrangement; all that is random comes from a generator seeded with `seed`.
///
/// Refused are, in this order and before anything else happens: parameters
/// that cannot be corrected, a starting layout that is no layout of the
/// keyboard, and fixed characters that the layout does not hold. Where the
/// evaluation fails on a solution, the run ends there and its failure is
/// returned; what the cache has learned until then stays.
///
/// Before the first iteration `max_iters_callback` is told the number of
/// iterations, once. Then the search makes `max_iters` iterations. In each it proposes a neighbour of the current
/// solution, learns its result from `cache` or, where the cache has none,
/// from the evaluator, and accepts it if it costs no more than the current
/// solution or if `accept_worse` says so of the cost increase, the
/// temperature and a random draw. In every iteration but the first whose
/// number is a multiple of the cadence of the parameters, `update_callback`
/// is told that number; every new best solution goes to `new_best_callback`
/// as a layout text with its cost.
///
/// The outcome names the best solution of the whole run and the one accepted
/// last, and repeats what the callbacks were told: each notification in it
/// went to its callback in one call.
pub fn sa_optimize<
    E: Fn(&Layout) -> Result<EvaluationResult, EvaluationError>,
    A: Fn(u64, u64, u64) -> bool,
    M: Fn(u64),
    U: Fn(u64),
    N: Fn(&str, u64),
>(
    layout_str: &str,
    parameters: Parameters,
    layout_evaluator: &LayoutEvaluator<E>,
    fixed_characters: &str,
    start_with_layout: bool,
    seed: u64,
    cache: &mut Cache,
    accept_worse: A,
    max_iters_callback: M,
    update_callback: U,
    new_best_callback: N,
) -> (found: Result<AnnealingOutcome, OptimizationError>)
    requires
        layout_evaluator.wf(),
        old(cache).wf(),
        forall|increase: u64, temperature: u64, draw: u64| #[trigger]
            accept_worse.requires((increase, temperature, draw)),
        forall|iterations: u64| #[trigger] max_iters_callback.requires((iterations,)),
        forall|iteration: u64| #[trigger] update_callback.requires((iteration,)),
        forall|layout: &str, cost: u64| #[trigger] new_best_callback.requires((layout, cost)),
    ensures
        final(cache).wf(),
        old(cache)@.submap_of(final(cache)@),
        match found {
            Err(OptimizationError::Evaluation(error)) => {
                &&& start_fault(
                    parameters,
                    layout_evaluator.keys(),
                    layout_str@,
                    fixed_characters@,
                ) is None
                &&& run_refused(
                    error,
                    layout_evaluator.scorer(),
                    accept_worse,
                    old(cache)@,
                    run_parameters(parameters),
                    layout_str@,
                    derived_slots(layout_str@, fixed_characters@),
                    seed,
                    start_with_layout,
                )
            },
            Err(fault) => start_fault(
                parameters,
                layout_evaluator.keys(),
                layout_str@,
                fixed_characters@,
            ) == Some(fault) && final(cache)@ == old(cache)@,
            Ok(outcome) => {
                &&& start_fault(
                    parameters,
                    layout_evaluator.keys(),
                    layout_str@,
                    fixed_characters@,
                ) is None
                &&& is_run(
                    outcome,
                    layout_evaluator.scorer(),
                    accept_worse,
                    old(cache)@,
                    run_parameters(parameters),
                    layout_str@,
                    derived_slots(layout_str@, fixed_characters@),
                    seed,
                    start_with_layout,
                )
                &&& grown_from(
                    layout_evaluator.scorer(),
                    old(cache)@,
                    final(cache)@,
                    layout_str@,
                    derived_slots(layout_str@, fixed_characters@),
                )
                &&& is_permutation(
                    outcome.best@,
                    derived_slots(layout_str@, fixed_characters@).len(),
                )
                &&& is_permutation(
                    outcome.last@,
                    derived_slots(layout_str@, fixed_characters@).len(),
                )
                &&& outcome.layout@ == render_spec(
                    layout_str@,
                    derived_slots(layout_str@, fixed_characters@),
                    outcome.best@,
                )
                &&& outcome.best_cost <= outcome.last_cost
                &&& outcome.iterations == parameters.max_iters
                &&& progress_of(events_of(outcome.notifications@)) == due_progress(
                    parameters.max_iters as nat,
                    parameters.progress_cadence,
                )
                &&& all_delivered(
                    outcome.notifications@,
                    max_iters_callback,
                    update_callback,
                    new_best_callback,
                )
            },
        },
{
    let settings: Parameters = match parameters.validated() {
        Ok(checked) => checked,
        Err(fault) => {
            proof {
                lemma_same_keeps(cache@);
            }
            return Err(OptimizationError::InvalidParameter(fault));
        },
    };
    if let Some(fault) = layout_evaluator.check(layout_str) {
        proof {
            lemma_same_keeps(cache@);
        }
        return Err(OptimizationError::Parse(fault));
    }
    let generator: PermutationLayoutGenerator = match PermutationLayoutGenerator::from_layout(
        layout_str,
        fixed_characters,
    ) {
        Ok(generator) => generator,
        Err(fault) => {
            proof {
                lemma_same_keeps(cache@);
            }
            return Err(OptimizationError::Config(fault));
        },
    };
    let ghost base = layout_str@;
    let ghost slots = derived_slots(layout_str@, fixed_characters@);
    let ghost known = cache@;
    let ghost scorer = layout_evaluator.scorer();

    let mut trace: Vec<Notification> = Vec::new();
    trace.push(Notification::Budget(settings.max_iters));
    assert(events_of(trace@) =~= opening_events(settings));
    announce(&trace, &max_iters_callback, &update_callback, &new_best_callback);

    let mut rng: SearchRng = SearchRng::seeded(seed);
    let initial: Vec<usize> = if start_with_layout {
        generator.identity_permutation()
    } else {
        generator.generate_random(&mut rng)
    };
    let ghost opening = rng@;
    let initial_cost: u64 = match evaluate_through(cache, &generator, layout_evaluator, &initial) {
        Ok(result) => {
            proof {
                lemma_first_cost(scorer, known, cache@, base, slots, initial@, result@);
            }
            result.total_cost()
        },
        Err(OptimizationError::Evaluation(error)) => {
            proof {
                lemma_same_keeps(cache@);
            }
            return Err(OptimizationError::Evaluation(error));
        },
        Err(_) => 0,
    };
    let ghost initial_seen = initial@;
    let ghost start = starting_state(settings, rng@, initial@, initial_cost);
    let mut search: Annealer = Annealer::assemble(generator, settings, rng, initial, initial_cost);
    let ghost mut inputs: Seq<(u64, bool)> = Seq::empty();
    proof {
        lemma_no_inputs(scorer, accept_worse, known, base, slots, settings, start);
        assert(events_of(trace@) =~= opening_events(settings) + run_events(
            start,
            base,
            slots,
            settings,
            inputs,
        ));
        lemma_underway_parts(
            search,
            *cache,
            trace@,
            *layout_evaluator,
            accept_worse,
            known,
            start,
            inputs,
        );
    }

    while !search.finished()
        invariant
            underway(
                search,
                *cache,
                trace@,
                *layout_evaluator,
                accept_worse,
                known,
                start,
                inputs,
            ),
            search.layouts().base() == base,
            search.layouts().movable() == slots,
            search.settings() == settings,
            known == old(cache)@,
            scorer == layout_evaluator.scorer(),
            base == layout_str@,
            slots == derived_slots(layout_str@, fixed_characters@),
            settings == run_parameters(parameters),
            start_fault(parameters, layout_evaluator.keys(), layout_str@, fixed_characters@) is None,
            opening_permutation(slots.len(), seed, start_with_layout) == (initial_seen, opening),
            start == starting_state(settings, opening, initial_seen, initial_cost),
            cost_allowed(scorer, known, base, slots, initial_seen, initial_cost),
            all_delivered(trace@, max_iters_callback, update_callback, new_best_callback),
            forall|increase: u64, temperature: u64, draw: u64| #[trigger]
                accept_worse.requires((increase, temperature, draw)),
            forall|iterations: u64| #[trigger] max_iters_callback.requires((iterations,)),
            forall|iteration: u64| #[trigger] update_callback.requires((iteration,)),
            forall|layout: &str, cost: u64| #[trigger] new_best_callback.requires((layout, cost)),
        decreases settings.max_iters - search@.iteration,
    {
        proof {
            lemma_underway_parts(
                search,
                *cache,
                trace@,
                *layout_evaluator,
                accept_worse,
                known,
                start,
                inputs,
            );
        }
        let ghost before = search;
        let ghost held = *cache;
        let ghost told = trace@;
        let longer = match advance_run(
            &mut search,
            cache,
            &mut trace,
            layout_evaluator,
            &accept_worse,
            &max_iters_callback,
            &update_callback,
            &new_best_callback,
            Ghost(known),
            Ghost(start),
            Ghost(inputs),
        ) {
            Ok(longer) => longer,
            Err(error) => {
                proof {
                    lemma_refused_after(
                        error,
                        before,
                        held,
                        told,
                        *layout_evaluator,
                        accept_worse,
                        known,
                        seed,
                        start_with_layout,
                        initial_seen,
                        opening,
                        initial_cost,
                        inputs,
                    );
                }
                return Err(OptimizationError::Evaluation(error));
            },
        };
        proof {
            inputs = longer@;
            lemma_underway_parts(
                search,
                *cache,
                trace@,
                *layout_evaluator,
                accept_worse,
                known,
                start,
                inputs,
            );
        }
    }
    proof {
        lemma_underway_parts(
            search,
            *cache,
            trace@,
            *layout_evaluator,
            accept_worse,
            known,
            start,
            inputs,
        );
        lemma_run_progress(start, base, slots, settings, inputs);
        lemma_opening_progress(settings);
        lemma_progress_of_concat(
            opening_events(settings),
            run_events(start, base, slots, settings, inputs),
        );
        assert(Seq::<u64>::empty() + due_progress(
            settings.max_iters as nat,
            settings.progress_cadence,
        ) =~= due_progress(settings.max_iters as nat, settings.progress_cadence));
    }
    let outcome = AnnealingOutcome {
        layout: search.best_layout(),
        best: search.best(),
        best_cost: search.best_cost(),
        last: search.current(),
        last_cost: search.current_cost(),
        iterations: search.iteration(),
        notifications: trace,
    };
    proof {
        assert(is_run_with(
            outcome,
            scorer,
            accept_worse,
            known,
            settings,
            base,
            slots,
            seed,
            start_with_layout,
            initial_cost,
            inputs,
        ));
    }
    Ok(outcome)
}

} // verus!
