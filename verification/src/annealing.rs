//! Simulated annealing: the search state and its steps.
//!
//! The search holds one current solution. In each iteration it proposes a
//! neighbour, learns its cost, accepts or refuses it, and lowers the
//! temperature. A neighbour that costs no more than the current solution is
//! always accepted; whether a costlier one is accepted is decided outside,
//! from the cost increase, the temperature and a random draw. A lower cost
//! is better.
use vstd::prelude::*;
use crate::error::InvalidParameterError;
use crate::generator::{render_spec, PermutationLayoutGenerator};
use crate::permutation::{is_permutation, lemma_perturb_is_permutation, perturb_spec, perturbed};
use crate::rng::{advance, output, SearchRng};

verus! {

/// The initial temperature that replaces one that is not positive.
pub const DEFAULT_INIT_TEMP: i64 = 1_000_000i64;

/// The number of iterations between two reports of progress.
pub const DEFAULT_CADENCE: u64 = 10u64;

/// How the temperature falls from one iteration to the next.
#[derive(Clone, Copy, Debug, PartialEq, Eq)]
pub enum CoolingSchedule {
    /// After `k` iterations the temperature is the initial one divided by
    /// `k + 1`.
    Fast,
    /// Each iteration multiplies the temperature by `numerator` and divides
    /// it by `denominator`.
    Geometric {
        /// The numerator of the rate; positive and below the denominator.
        numerator: u64,
        /// The denominator of the rate.
        denominator: u64,
    },
}

/// The parameters of a simulated annealing. Temperatures are given in the
/// unit of the costs.
#[derive(Clone, Copy, Debug, PartialEq, Eq)]
pub struct Parameters {
    /// The temperature before the first iteration; `None` asks for the
    /// default.
    pub init_temp: Option<i64>,
    /// The number of pairs of keys that a proposal exchanges.
    pub key_switches: usize,
    /// The number of iterations of a run.
    pub max_iters: u64,
    /// How the temperature falls.
    pub cooling: CoolingSchedule,
    /// The number of iterations between two reports of progress.
    pub progress_cadence: u64,
}

/// The initial temperature after correction: the one given, if it is
/// positive; else `default_temp`, if that is positive; else none.
pub open spec fn corrected_temp(init_temp: Option<i64>, default_temp: i64) -> Option<i64> {
    match init_temp {
        Some(given) if given > 0 => Some(given),
        _ => if default_temp > 0 {
            Some(default_temp)
        } else {
            None
        },
    }
}

/// The schedule lowers the temperature: a geometric rate is positive and
/// below one.
pub open spec fn cooling_valid(cooling: CoolingSchedule) -> bool {
    match cooling {
        CoolingSchedule::Fast => true,
        CoolingSchedule::Geometric { numerator, denominator } => 0 < numerator < denominator,
    }
}

/// What is wrong with the parameters beyond correction, if anything.
pub open spec fn parameter_fault(parameters: Parameters) -> Option<InvalidParameterError> {
    if parameters.key_switches == 0 {
        Some(InvalidParameterError::NoKeySwitches)
    } else if parameters.progress_cadence == 0 {
        Some(InvalidParameterError::NoCadence)
    } else if !cooling_valid(parameters.cooling) {
        Some(InvalidParameterError::CoolingRate)
    } else {
        None
    }
}

/// The parameters are usable as they are: nothing is wrong with them and the
/// initial temperature is positive.
pub open spec fn usable(parameters: Parameters) -> bool {
    &&& parameter_fault(parameters) is None
    &&& parameters.init_temp matches Some(given) && given > 0
}

/// The initial temperature of usable parameters.
pub open spec fn initial_temperature(parameters: Parameters) -> u64 {
    match parameters.init_temp {
        Some(given) if given > 0 => given as u64,
        _ => 1,
    }
}

impl Parameters {
    /// Makes sure that the initial temperature is positive: one that is not,
    /// or is not given, is replaced by `default_temp`. Where `default_temp`
    /// is not positive either, the temperature cannot be corrected: the
    /// parameters are refused and stay as they are.
    pub fn correct_init_temp_with(&mut self, default_temp: i64) -> (done: Result<
        (),
        InvalidParameterError,
    >)
        ensures
            match corrected_temp(old(self).init_temp, default_temp) {
                Some(temperature) => done is Ok && *final(self) == (Parameters {
                    init_temp: Some(temperature),
                    ..*old(self)
                }),
                None => done == Err::<(), InvalidParameterError>(
                    InvalidParameterError::InitialTemperature,
                ) && *final(self) == *old(self),
            },
    {
        let positive: bool = match self.init_temp {
            Some(given) => given > 0,
            None => false,
        };
        if positive {
            Ok(())
        } else if default_temp > 0 {
            self.init_temp = Some(default_temp);
            Ok(())
        } else {
            Err(InvalidParameterError::InitialTemperature)
        }
    }

    /// Makes sure that the initial temperature is positive: one that is not,
    /// or is not given, is replaced by the default.
    pub fn correct_init_temp(&mut self)
        ensures
            *final(self) == (Parameters {
                init_temp: corrected_temp(old(self).init_temp, DEFAULT_INIT_TEMP),
                ..*old(self)
            }),
            final(self).init_temp matches Some(given) && given > 0,
    {
        let _ = self.correct_init_temp_with(DEFAULT_INIT_TEMP);
    }

    /// The temperature before the first iteration: the initial temperature,
    /// and one where that is not positive.
    pub fn starting_temperature(&self) -> (temperature: u64)
        ensures
            temperature == initial_temperature(*self),
            temperature >= 1,
    {
        match self.init_temp {
            Some(given) => if given > 0 {
                given as u64
            } else {
                1
            },
            None => 1,
        }
    }

    /// Checks the parameters. An initial temperature that is not positive is
    /// corrected to the default. No key switches, a progress cadence of zero
    /// and a cooling rate that is not between zero and one cannot be
    /// corrected and are refused.
    pub fn validated(self) -> (checked: Result<Parameters, InvalidParameterError>)
        ensures
            match parameter_fault(self) {
                Some(fault) => checked == Err::<Parameters, InvalidParameterError>(fault),
                None => checked == Ok::<Parameters, InvalidParameterError>(
                    Parameters {
                        init_temp: corrected_temp(self.init_temp, DEFAULT_INIT_TEMP),
                        ..self
                    },
                ) && usable(checked->Ok_0),
            },
    {
        if self.key_switches == 0 {
            return Err(InvalidParameterError::NoKeySwitches);
        }
        if self.progress_cadence == 0 {
            return Err(InvalidParameterError::NoCadence);
        }
        let cools: bool = match self.cooling {
            CoolingSchedule::Fast => true,
            CoolingSchedule::Geometric { numerator, denominator } => 0 < numerator && numerator
                < denominator,
        };
        if !cools {
            return Err(InvalidParameterError::CoolingRate);
        }
        let mut checked: Parameters = self;
        checked.correct_init_temp();
        Ok(checked)
    }
}

/// `temperature` lowered by one step of a geometric schedule, and held at one
/// where it would fall below.
pub open spec fn lowered(temperature: u64, numerator: u64, denominator: u64) -> u64 {
    let scaled = (temperature as int * numerator as int) / (denominator as int);
    if scaled < 1 {
        1
    } else {
        scaled as u64
    }
}

/// The temperature after `iterations` iterations of a run that started at
/// `initial`. It never falls below one.
pub open spec fn temperature_at(cooling: CoolingSchedule, initial: u64, iterations: nat) -> u64
    decreases iterations,
{
    match cooling {
        CoolingSchedule::Fast => {
            let divided = (initial as int) / (iterations as int + 1);
            if divided < 1 {
                1
            } else {
                divided as u64
            }
        },
        CoolingSchedule::Geometric { numerator, denominator } => {
            if iterations == 0 {
                if initial < 1 {
                    1
                } else {
                    initial
                }
            } else {
                lowered(
                    temperature_at(cooling, initial, (iterations - 1) as nat),
                    numerator,
                    denominator,
                )
            }
        },
    }
}

/// One step of a geometric schedule does not raise the temperature.
pub proof fn lemma_lowered_bounds(temperature: u64, numerator: u64, denominator: u64)
    requires
        0 < numerator < denominator,
        temperature >= 1,
    ensures
        1 <= lowered(temperature, numerator, denominator) <= temperature,
        (temperature as int * numerator as int) / (denominator as int) <= temperature,
{
    let t = temperature as int;
    let n = numerator as int;
    let d = denominator as int;
    assert(t * n <= t * d) by (nonlinear_arith)
        requires
            0 <= t,
            n <= d,
    ;
    assert((t * n) / d <= t) by (nonlinear_arith)
        requires
            t * n <= t * d,
            d > 0,
            t >= 0,
            n >= 0,
    ;
    assert((t * n) / d >= 0) by (nonlinear_arith)
        requires
            d > 0,
            t >= 0,
            n >= 0,
    ;
}

/// The temperature stays positive and never rises from one iteration to the
/// next.
pub proof fn lemma_temperature_falls(cooling: CoolingSchedule, initial: u64, iterations: nat)
    requires
        cooling_valid(cooling),
        initial >= 1,
    ensures
        1 <= temperature_at(cooling, initial, iterations + 1) <= temperature_at(
            cooling,
            initial,
            iterations,
        ) <= initial,
    decreases iterations,
{
    match cooling {
        CoolingSchedule::Fast => {
            let i = initial as int;
            let a = iterations as int + 1;
            let b = iterations as int + 2;
            assert(i / b <= i / a && i / a <= i) by (nonlinear_arith)
                requires
                    i >= 0,
                    1 <= a < b,
            ;
        },
        CoolingSchedule::Geometric { numerator, denominator } => {
            if iterations > 0 {
                lemma_temperature_falls(cooling, initial, (iterations - 1) as nat);
            }
            lemma_lowered_bounds(temperature_at(cooling, initial, iterations), numerator, denominator);
        },
    }
}

/// Computes the temperature after `iterations` iterations from the one after
/// `iterations - 1`.
pub fn cool(cooling: CoolingSchedule, initial: u64, current: u64, iterations: u64) -> (next: u64)
    requires
        cooling_valid(cooling),
        initial >= 1,
        iterations >= 1,
        current == temperature_at(cooling, initial, (iterations - 1) as nat),
    ensures
        next == temperature_at(cooling, initial, iterations as nat),
        1 <= next <= current,
{
    proof {
        lemma_temperature_falls(cooling, initial, (iterations - 1) as nat);
    }
    match cooling {
        CoolingSchedule::Fast => {
            let divisor: u128 = iterations as u128 + 1;
            let divided: u128 = initial as u128 / divisor;
            if divided < 1 {
                1
            } else {
                divided as u64
            }
        },
        CoolingSchedule::Geometric { numerator, denominator } => {
            proof {
                lemma_lowered_bounds(current, numerator, denominator);
                assert(current as int * numerator as int <= u64::MAX as int * u64::MAX as int)
                    by (nonlinear_arith)
                    requires
                        0 <= current as int <= u64::MAX as int,
                        0 <= numerator as int <= u64::MAX as int,
                ;
            }
            let scaled: u128 = (current as u128 * numerator as u128) / (denominator as u128);
            if scaled < 1 {
                1
            } else {
                scaled as u64
            }
        },
    }
}

/// What a run tells its observer.
#[derive(Clone, Debug, PartialEq, Eq)]
pub enum Notification {
    /// The number of iterations that the run will make. Sent once, before
    /// the first iteration.
    Budget(u64),
    /// The iteration that the run has reached.
    Progress(u64),
    /// A solution that is better than all before it.
    NewBest {
        /// The solution as a layout text.
        layout: String,
        /// The cost of the solution.
        cost: u64,
    },
}

/// A notification, with its layout as a sequence of characters.
pub enum Event {
    /// The number of iterations that the run will make.
    Budget(u64),
    /// The iteration that the run has reached.
    Progress(u64),
    /// The layout text and the cost of a solution that is better than all
    /// before it.
    NewBest(Seq<char>, u64),
}

impl View for Notification {
    type V = Event;

    open spec fn view(&self) -> Event {
        match self {
            Notification::Budget(iterations) => Event::Budget(*iterations),
            Notification::Progress(iteration) => Event::Progress(*iteration),
            Notification::NewBest { layout, cost } => Event::NewBest(layout@, *cost),
        }
    }
}

/// The events of a sequence of notifications.
pub open spec fn events_of(trace: Seq<Notification>) -> Seq<Event> {
    Seq::new(trace.len(), |i: int| trace[i]@)
}

/// The state of a search between two steps.
pub struct SearchState {
    /// The state of the random generator.
    pub rng: u64,
    /// The current solution.
    pub current: Seq<usize>,
    /// The cost of the current solution.
    pub current_cost: u64,
    /// The best solution so far.
    pub best: Seq<usize>,
    /// The cost of the best solution so far.
    pub best_cost: u64,
    /// The temperature.
    pub temperature: u64,
    /// The number of iterations made.
    pub iteration: u64,
    /// The candidate that was proposed and is not yet judged, with the
    /// random draw that goes with it.
    pub pending: Option<(Seq<usize>, u64)>,
}

/// The state in which a search starts: the solution `initial` with the cost
/// `cost` is the current and the best one.
pub open spec fn starting_state(parameters: Parameters, rng: u64, initial: Seq<usize>, cost: u64) -> SearchState {
    SearchState {
        rng,
        current: initial,
        current_cost: cost,
        best: initial,
        best_cost: cost,
        temperature: temperature_at(parameters.cooling, initial_temperature(parameters), 0),
        iteration: 0,
        pending: None,
    }
}

/// The state after a proposal: a neighbour of the current solution is
/// pending, made by as many random exchanges as the parameters say, and one
/// more number was drawn to go with it.
pub open spec fn proposed(state: SearchState, parameters: Parameters) -> SearchState {
    let (candidate, reached) = perturb_spec(
        state.current,
        state.rng,
        parameters.key_switches as nat,
    );
    SearchState {
        rng: advance(reached),
        pending: Some((candidate, output(advance(reached)))),
        ..state
    }
}

/// The candidate that is pending, and the current solution where none is.
pub open spec fn pending_candidate(state: SearchState) -> Seq<usize> {
    match state.pending {
        Some((candidate, _)) => candidate,
        None => state.current,
    }
}

/// The random draw that goes with the pending candidate, and zero where none
/// is pending.
pub open spec fn pending_draw(state: SearchState) -> u64 {
    match state.pending {
        Some((_, draw)) => draw,
        None => 0,
    }
}

/// A candidate of the cost `cost` is accepted: it costs no more than the
/// current solution, or the verdict on a costlier one is to accept.
pub open spec fn accepts(state: SearchState, cost: u64, verdict: bool) -> bool {
    cost <= state.current_cost || verdict
}

/// A candidate of the cost `cost` is a new best solution: it is accepted and
/// costs less than the best so far.
pub open spec fn improves(state: SearchState, cost: u64, verdict: bool) -> bool {
    accepts(state, cost, verdict) && cost < state.best_cost
}

/// Progress is reported in the iteration `iteration`: it is not the first,
/// and its number is a multiple of the cadence.
pub open spec fn progress_due(iteration: u64, cadence: u64) -> bool {
    iteration > 0 && cadence > 0 && iteration % cadence == 0
}

/// The state after the pending candidate was judged. An accepted candidate
/// becomes the current solution, and the best one if it costs less than the
/// best so far. The iteration is counted and the temperature lowered.
pub open spec fn concluded(state: SearchState, parameters: Parameters, cost: u64, verdict: bool) -> SearchState
    recommends
        state.pending is Some,
{
    let candidate = pending_candidate(state);
    let reached = (state.iteration + 1) as u64;
    SearchState {
        rng: state.rng,
        current: if accepts(state, cost, verdict) {
            candidate
        } else {
            state.current
        },
        current_cost: if accepts(state, cost, verdict) {
            cost
        } else {
            state.current_cost
        },
        best: if improves(state, cost, verdict) {
            candidate
        } else {
            state.best
        },
        best_cost: if improves(state, cost, verdict) {
            cost
        } else {
            state.best_cost
        },
        temperature: temperature_at(
            parameters.cooling,
            initial_temperature(parameters),
            reached as nat,
        ),
        iteration: reached,
        pending: None,
    }
}

/// What the observer is told when the pending candidate is judged: first the
/// iteration, where progress is due; then the candidate, where it is a new
/// best solution, as the layout text `text` with its cost.
pub open spec fn conclusion_events(
    state: SearchState,
    parameters: Parameters,
    text: Seq<char>,
    cost: u64,
    verdict: bool,
) -> Seq<Event> {
    let progress = if progress_due(state.iteration, parameters.progress_cadence) {
        seq![Event::Progress(state.iteration)]
    } else {
        Seq::<Event>::empty()
    };
    if improves(state, cost, verdict) {
        progress.push(Event::NewBest(text, cost))
    } else {
        progress
    }
}

/// The state is in order for a configuration of `slots` slots: the current
/// and the best solution and a pending candidate are permutations, the best
/// solution costs no more than the current one, the temperature is that of
/// the schedule, and no more iterations were made than the run has.
pub open spec fn state_valid(state: SearchState, parameters: Parameters, slots: nat) -> bool {
    &&& is_permutation(state.current, slots)
    &&& is_permutation(state.best, slots)
    &&& (state.pending matches Some((candidate, _)) ==> is_permutation(candidate, slots))
    &&& state.best_cost <= state.current_cost
    &&& state.temperature == temperature_at(
        parameters.cooling,
        initial_temperature(parameters),
        state.iteration as nat,
    )
    &&& state.temperature >= 1
    &&& state.iteration <= parameters.max_iters
}

/// A proposal keeps the state in order.
pub proof fn lemma_proposed_valid(state: SearchState, parameters: Parameters, slots: nat)
    requires
        state_valid(state, parameters, slots),
    ensures
        state_valid(proposed(state, parameters), parameters, slots),
        proposed(state, parameters).pending is Some,
{
    lemma_perturb_is_permutation(state.current, state.rng, parameters.key_switches as nat);
}

/// Judging the pending candidate keeps the state in order, whatever its cost
/// and the verdict, and never raises the cost of the best solution.
pub proof fn lemma_concluded_valid(
    state: SearchState,
    parameters: Parameters,
    slots: nat,
    cost: u64,
    verdict: bool,
)
    requires
        state_valid(state, parameters, slots),
        usable(parameters),
        state.pending is Some,
        state.iteration < parameters.max_iters,
    ensures
        state_valid(concluded(state, parameters, cost, verdict), parameters, slots),
        concluded(state, parameters, cost, verdict).best_cost <= state.best_cost,
        concluded(state, parameters, cost, verdict).iteration == state.iteration + 1,
{
    lemma_temperature_falls(
        parameters.cooling,
        initial_temperature(parameters),
        state.iteration as nat,
    );
}

/// The state of a simulated annealing over the permutations of one layout
/// configuration, advanced in two moves per iteration: a proposal, and the
/// judgement of what was proposed.
#[derive(Debug)]
pub struct Annealer {
    generator: PermutationLayoutGenerator,
    parameters: Parameters,
    rng: SearchRng,
    current: Vec<usize>,
    current_cost: u64,
    best: Vec<usize>,
    best_cost: u64,
    temperature: u64,
    iteration: u64,
    has_pending: bool,
    candidate: Vec<usize>,
    draw: u64,
}

impl View for Annealer {
    type V = SearchState;

    closed spec fn view(&self) -> SearchState {
        SearchState {
            rng: self.rng@,
            current: self.current@,
            current_cost: self.current_cost,
            best: self.best@,
            best_cost: self.best_cost,
            temperature: self.temperature,
            iteration: self.iteration,
            pending: if self.has_pending {
                Some((self.candidate@, self.draw))
            } else {
                None
            },
        }
    }
}

impl Annealer {
    /// The layout configuration of the search.
    pub closed spec fn layouts(&self) -> PermutationLayoutGenerator {
        self.generator
    }

    /// The parameters of the search.
    pub closed spec fn settings(&self) -> Parameters {
        self.parameters
    }

    /// The number of slots of the configuration.
    pub open spec fn slots(&self) -> nat {
        self.layouts().movable().len()
    }

    /// The search is in order: its configuration is valid, its parameters
    /// are usable, and its state is valid.
    pub open spec fn wf(&self) -> bool {
        &&& self.layouts().wf()
        &&& usable(self.settings())
        &&& state_valid(self@, self.settings(), self.slots())
    }

    /// The search has made all its iterations.
    pub open spec fn exhausted(&self) -> bool {
        self@.iteration >= self.settings().max_iters
    }

    /// Makes a search that starts from the solution `initial`, whose cost is
    /// `cost`.
    pub fn assemble(
        generator: PermutationLayoutGenerator,
        parameters: Parameters,
        rng: SearchRng,
        initial: Vec<usize>,
        cost: u64,
    ) -> (search: Annealer)
        requires
            generator.wf(),
            usable(parameters),
            is_permutation(initial@, generator.movable().len()),
        ensures
            search.wf(),
            search.layouts() == generator,
            search.settings() == parameters,
            search@ == starting_state(parameters, rng@, initial@, cost),
    {
        let temperature: u64 = parameters.starting_temperature();
        let best: Vec<usize> = initial.clone();
        Annealer {
            generator,
            parameters,
            rng,
            current: initial,
            current_cost: cost,
            best,
            best_cost: cost,
            temperature,
            iteration: 0,
            has_pending: false,
            candidate: Vec::new(),
            draw: 0,
        }
    }

    /// The layout configuration of the search.
    pub fn generator(&self) -> (generator: &PermutationLayoutGenerator)
        ensures
            *generator == self.layouts(),
    {
        &self.generator
    }

    /// Tells whether the search has made all its iterations.
    pub fn finished(&self) -> (done: bool)
        ensures
            done == self.exhausted(),
    {
        self.iteration >= self.parameters.max_iters
    }

    /// The number of iterations made.
    pub fn iteration(&self) -> (iteration: u64)
        ensures
            iteration == self@.iteration,
    {
        self.iteration
    }

    /// The temperature.
    pub fn temperature(&self) -> (temperature: u64)
        ensures
            temperature == self@.temperature,
    {
        self.temperature
    }

    /// The cost of the current solution.
    pub fn current_cost(&self) -> (cost: u64)
        ensures
            cost == self@.current_cost,
    {
        self.current_cost
    }

    /// The cost of the best solution so far.
    pub fn best_cost(&self) -> (cost: u64)
        ensures
            cost == self@.best_cost,
    {
        self.best_cost
    }

    /// A copy of the current solution.
    pub fn current(&self) -> (p: Vec<usize>)
        ensures
            p@ == self@.current,
    {
        self.current.clone()
    }

    /// A copy of the best solution so far.
    pub fn best(&self) -> (p: Vec<usize>)
        ensures
            p@ == self@.best,
    {
        self.best.clone()
    }

    /// The parameters of the search.
    pub fn parameters(&self) -> (parameters: Parameters)
        ensures
            parameters == self.settings(),
    {
        self.parameters
    }

    /// The layout text of the best solution so far.
    pub fn best_layout(&self) -> (text: String)
        requires
            self.wf(),
        ensures
            text@ == self.layouts().render(self@.best),
    {
        match self.generator.generate_string(&self.best) {
            Ok(text) => text,
            Err(_) => String::new(),
        }
    }

    /// Proposes a neighbour of the current solution and draws the random
    /// number that goes with it. The neighbour is pending until it is
    /// judged; a candidate that was pending before is dropped.
    pub fn propose(&mut self) -> (proposal: (Vec<usize>, u64))
        requires
            old(self).wf(),
        ensures
            final(self).wf(),
            final(self).layouts() == old(self).layouts(),
            final(self).settings() == old(self).settings(),
            final(self)@ == proposed(old(self)@, old(self).settings()),
            final(self)@.pending == Some((proposal.0@, proposal.1)),
            is_permutation(proposal.0@, old(self).slots()),
    {
        proof {
            lemma_proposed_valid(self@, self.settings(), self.slots());
        }
        let candidate: Vec<usize> = perturbed(
            &self.current,
            &mut self.rng,
            self.parameters.key_switches,
        );
        let draw: u64 = self.rng.next_u64();
        self.candidate = candidate.clone();
        self.draw = draw;
        self.has_pending = true;
        (candidate, draw)
    }

    /// Tells whether a candidate of the cost `cost` is accepted only if the
    /// verdict on it says so, which is where it costs more than the current
    /// solution.
    pub fn needs_verdict(&self, cost: u64) -> (needed: bool)
        ensures
            needed == (cost > self@.current_cost),
            !needed ==> forall|verdict: bool| accepts(self@, cost, verdict),
    {
        cost > self.current_cost
    }

    /// Judges the pending candidate, whose cost is `cost`. It is accepted if
    /// it costs no more than the current solution or if `verdict` says so.
    /// The iteration is counted and the temperature lowered. Returns what
    /// the observer is to be told, in order. Where no candidate is pending
    /// or the search has made all its iterations, nothing happens.
    pub fn conclude(&mut self, cost: u64, verdict: bool) -> (told: Vec<Notification>)
        requires
            old(self).wf(),
        ensures
            final(self).wf(),
            final(self).layouts() == old(self).layouts(),
            final(self).settings() == old(self).settings(),
            if old(self)@.pending is Some && !old(self).exhausted() {
                &&& final(self)@ == concluded(old(self)@, old(self).settings(), cost, verdict)
                &&& events_of(told@) == conclusion_events(
                    old(self)@,
                    old(self).settings(),
                    old(self).layouts().render(pending_candidate(old(self)@)),
                    cost,
                    verdict,
                )
            } else {
                final(self)@ == old(self)@ && told@.len() == 0
            },
    {
        let mut told: Vec<Notification> = Vec::new();
        if !self.has_pending || self.iteration >= self.parameters.max_iters {
            return told;
        }
        proof {
            lemma_concluded_valid(self@, self.settings(), self.slots(), cost, verdict);
        }
        if self.iteration > 0 && self.iteration % self.parameters.progress_cadence == 0 {
            told.push(Notification::Progress(self.iteration));
        }
        let accepted: bool = cost <= self.current_cost || verdict;
        if accepted {
            if cost < self.best_cost {
                self.best = self.candidate.clone();
                self.best_cost = cost;
                let layout: String = match self.generator.generate_string(&self.best) {
                    Ok(text) => text,
                    Err(_) => String::new(),
                };
                told.push(Notification::NewBest { layout, cost });
            }
            self.current = self.candidate.clone();
            self.current_cost = cost;
        }
        self.iteration = self.iteration + 1;
        self.temperature = cool(
            self.parameters.cooling,
            self.parameters.starting_temperature(),
            self.temperature,
            self.iteration,
        );
        self.has_pending = false;
        assert(events_of(told@) =~= conclusion_events(
            old(self)@,
            old(self).settings(),
            old(self).layouts().render(pending_candidate(old(self)@)),
            cost,
            verdict,
        ));
        told
    }
}

/// The state of a run after the iterations whose candidates had the costs
/// and verdicts `inputs`, in order: each iteration is a proposal followed by
/// its judgement.
pub open spec fn run_state(start: SearchState, parameters: Parameters, inputs: Seq<(u64, bool)>) -> SearchState
    decreases inputs.len(),
{
    if inputs.len() == 0 {
        start
    } else {
        let before = run_state(start, parameters, inputs.drop_last());
        concluded(proposed(before, parameters), parameters, inputs.last().0, inputs.last().1)
    }
}

/// What the observer is told in the iterations whose candidates had the
/// costs and verdicts `inputs`.
pub open spec fn run_events(
    start: SearchState,
    base: Seq<char>,
    slots: Seq<char>,
    parameters: Parameters,
    inputs: Seq<(u64, bool)>,
) -> Seq<Event>
    decreases inputs.len(),
{
    if inputs.len() == 0 {
        Seq::<Event>::empty()
    } else {
        let before = run_state(start, parameters, inputs.drop_last());
        let judged = proposed(before, parameters);
        run_events(start, base, slots, parameters, inputs.drop_last()) + conclusion_events(
            judged,
            parameters,
            render_spec(base, slots, pending_candidate(judged)),
            inputs.last().0,
            inputs.last().1,
        )
    }
}

/// What the observer is told before the first iteration: the number of
/// iterations that the run will make, once.
pub open spec fn opening_events(parameters: Parameters) -> Seq<Event> {
    seq![Event::Budget(parameters.max_iters)]
}

/// The iterations of which progress is reported among the first
/// `iterations` of a run, in order.
pub open spec fn due_progress(iterations: nat, cadence: u64) -> Seq<u64>
    decreases iterations,
{
    if iterations == 0 {
        Seq::<u64>::empty()
    } else {
        let before = due_progress((iterations - 1) as nat, cadence);
        let index = (iterations - 1) as nat;
        if index <= u64::MAX && progress_due(index as u64, cadence) {
            before.push(index as u64)
        } else {
            before
        }
    }
}

/// The iterations that the reports of progress among `events` name.
pub open spec fn progress_of(events: Seq<Event>) -> Seq<u64>
    decreases events.len(),
{
    if events.len() == 0 {
        Seq::<u64>::empty()
    } else {
        let before = progress_of(events.drop_last());
        match events.last() {
            Event::Progress(iteration) => before.push(iteration),
            _ => before,
        }
    }
}

/// The costs of the new best solutions among `events`.
pub open spec fn improvements_of(events: Seq<Event>) -> Seq<u64>
    decreases events.len(),
{
    if events.len() == 0 {
        Seq::<u64>::empty()
    } else {
        let before = improvements_of(events.drop_last());
        match events.last() {
            Event::NewBest(_, cost) => before.push(cost),
            _ => before,
        }
    }
}

/// The reports of progress among two sequences of events, one after the
/// other, are those of the first followed by those of the second.
pub proof fn lemma_progress_of_concat(first: Seq<Event>, second: Seq<Event>)
    ensures
        progress_of(first + second) == progress_of(first) + progress_of(second),
    decreases second.len(),
{
    if second.len() == 0 {
        assert(first + second == first);
        assert(progress_of(first) + progress_of(second) == progress_of(first));
    } else {
        lemma_progress_of_concat(first, second.drop_last());
        assert((first + second).drop_last() == first + second.drop_last());
        assert((first + second).last() == second.last());
        match second.last() {
            Event::Progress(iteration) => {
                assert((progress_of(first) + progress_of(second.drop_last())).push(iteration)
                    == progress_of(first) + progress_of(second.drop_last()).push(iteration));
            },
            _ => {},
        }
    }
}

/// Every state of a run is in order: after any number of iterations within
/// the budget, the current solution, the best solution and every candidate
/// that was proposed are permutations of the slot set, and the iterations
/// made are those of the inputs.
pub proof fn lemma_run_valid(
    start: SearchState,
    parameters: Parameters,
    slots: nat,
    inputs: Seq<(u64, bool)>,
)
    requires
        usable(parameters),
        state_valid(start, parameters, slots),
        start.iteration + inputs.len() <= parameters.max_iters,
    ensures
        state_valid(run_state(start, parameters, inputs), parameters, slots),
        run_state(start, parameters, inputs).iteration == start.iteration + inputs.len(),
        run_state(start, parameters, inputs).best_cost <= start.best_cost,
        run_state(start, parameters, inputs).pending is None || inputs.len() == 0,
        inputs.len() > 0 ==> is_permutation(
            pending_candidate(
                proposed(run_state(start, parameters, inputs.drop_last()), parameters),
            ),
            slots,
        ),
    decreases inputs.len(),
{
    if inputs.len() > 0 {
        lemma_run_valid(start, parameters, slots, inputs.drop_last());
        let before = run_state(start, parameters, inputs.drop_last());
        lemma_proposed_valid(before, parameters, slots);
        lemma_concluded_valid(
            proposed(before, parameters),
            parameters,
            slots,
            inputs.last().0,
            inputs.last().1,
        );
    }
}

/// The cost of the best solution never rises in the course of a run: after
/// the first `j` iterations it is no higher than after the first `i`, for
/// `i <= j`.
pub proof fn lemma_run_best_falls(
    start: SearchState,
    parameters: Parameters,
    slots: nat,
    inputs: Seq<(u64, bool)>,
    i: int,
    j: int,
)
    requires
        usable(parameters),
        state_valid(start, parameters, slots),
        start.iteration + inputs.len() <= parameters.max_iters,
        0 <= i <= j <= inputs.len(),
    ensures
        run_state(start, parameters, inputs.take(j)).best_cost <= run_state(
            start,
            parameters,
            inputs.take(i),
        ).best_cost,
    decreases j - i,
{
    if i < j {
        lemma_run_best_falls(start, parameters, slots, inputs, i, j - 1);
        assert(inputs.take(j).drop_last() == inputs.take(j - 1));
        lemma_run_valid(start, parameters, slots, inputs.take(j - 1));
        let before = run_state(start, parameters, inputs.take(j - 1));
        lemma_proposed_valid(before, parameters, slots);
        lemma_concluded_valid(
            proposed(before, parameters),
            parameters,
            slots,
            inputs.take(j).last().0,
            inputs.take(j).last().1,
        );
    }
}

/// The reports of progress of a run that starts at its first iteration are
/// those that are due, whatever the costs and the verdicts.
pub proof fn lemma_run_progress(
    start: SearchState,
    base: Seq<char>,
    slots: Seq<char>,
    parameters: Parameters,
    inputs: Seq<(u64, bool)>,
)
    requires
        usable(parameters),
        state_valid(start, parameters, slots.len()),
        start.iteration == 0,
        inputs.len() <= parameters.max_iters,
    ensures
        progress_of(run_events(start, base, slots, parameters, inputs)) == due_progress(
            inputs.len(),
            parameters.progress_cadence,
        ),
    decreases inputs.len(),
{
    if inputs.len() > 0 {
        let front = inputs.drop_last();
        lemma_run_progress(start, base, slots, parameters, front);
        lemma_run_valid(start, parameters, slots.len(), front);
        let before = run_state(start, parameters, front);
        let judged = proposed(before, parameters);
        let told = conclusion_events(
            judged,
            parameters,
            render_spec(base, slots, pending_candidate(judged)),
            inputs.last().0,
            inputs.last().1,
        );
        lemma_progress_of_concat(run_events(start, base, slots, parameters, front), told);
        let due = progress_due(judged.iteration, parameters.progress_cadence);
        let better = improves(judged, inputs.last().0, inputs.last().1);
        let progress = if due {
            seq![Event::Progress(judged.iteration)]
        } else {
            Seq::<Event>::empty()
        };
        assert(progress_of(progress) == if due {
            seq![judged.iteration]
        } else {
            Seq::<u64>::empty()
        }) by {
            if due {
                assert(progress.drop_last() == Seq::<Event>::empty());
                assert(progress_of(progress.drop_last()) == Seq::<u64>::empty());
                assert(Seq::<u64>::empty().push(judged.iteration) == seq![judged.iteration]);
            }
        }
        if better {
            assert(told.drop_last() == progress);
        }
        assert(progress_of(told) == progress_of(progress));
        if due {
            assert(due_progress((inputs.len() - 1) as nat, parameters.progress_cadence) + seq![
                judged.iteration,
            ] == due_progress((inputs.len() - 1) as nat, parameters.progress_cadence).push(
                judged.iteration,
            ));
        } else {
            assert(due_progress((inputs.len() - 1) as nat, parameters.progress_cadence)
                + Seq::<u64>::empty() == due_progress(
                (inputs.len() - 1) as nat,
                parameters.progress_cadence,
            ));
        }
    }
}

/// Every iteration of which progress is reported lies within the run, is
/// not the first and has a number that is a multiple of the cadence; and the
/// reports come in rising order, so that no iteration is reported twice.
pub proof fn lemma_due_progress_within(iterations: nat, cadence: u64)
    ensures
        forall|j: int|
            0 <= j < due_progress(iterations, cadence).len() ==> {
                let reported = #[trigger] due_progress(iterations, cadence)[j];
                &&& reported < iterations
                &&& reported > 0
                &&& cadence > 0
                &&& reported % cadence == 0
            },
        forall|i: int, j: int|
            0 <= i < j < due_progress(iterations, cadence).len() ==> due_progress(
                iterations,
                cadence,
            )[i] < due_progress(iterations, cadence)[j],
    decreases iterations,
{
    if iterations > 0 {
        let index = (iterations - 1) as nat;
        lemma_due_progress_within(index, cadence);
        let before = due_progress(index, cadence);
        let now = due_progress(iterations, cadence);
        if index <= u64::MAX && progress_due(index as u64, cadence) {
            assert(now == before.push(index as u64));
            assert forall|j: int| 0 <= j < now.len() implies {
                let reported = #[trigger] now[j];
                &&& reported < iterations
                &&& reported > 0
                &&& cadence > 0
                &&& reported % cadence == 0
            } by {
                if j < before.len() {
                    assert(now[j] == before[j]);
                }
            }
            assert forall|i: int, j: int| 0 <= i < j < now.len() implies now[i] < now[j] by {
                assert(now[i] == before[i]);
                if j < before.len() {
                    assert(now[j] == before[j]);
                }
            }
        } else {
            assert(now == before);
        }
    }
}

/// Progress is reported of every multiple of the cadence below the number of
/// iterations, but for zero, and of nothing else: the report number `j`
/// names the iteration `(j + 1) * cadence`, and the last one named is below
/// `iterations`.
pub proof fn lemma_due_progress(iterations: nat, cadence: u64)
    requires
        cadence > 0,
        iterations <= u64::MAX,
    ensures
        forall|j: int|
            0 <= j < due_progress(iterations, cadence).len() ==> #[trigger] due_progress(
                iterations,
                cadence,
            )[j] == (j + 1) * cadence,
        iterations > 0 ==> due_progress(iterations, cadence).len() * cadence < iterations,
        iterations > 0 ==> (due_progress(iterations, cadence).len() + 1) * cadence >= iterations,
        iterations == 0 ==> due_progress(iterations, cadence).len() == 0,
    decreases iterations,
{
    if iterations > 0 {
        let index = (iterations - 1) as nat;
        lemma_due_progress(index, cadence);
        let before = due_progress(index, cadence);
        let count = before.len() as int;
        let c = cadence as int;
        let n = index as int;
        if n > 0 {
            if n % c == 0 {
                assert(n == (count + 1) * c) by (nonlinear_arith)
                    requires
                        n % c == 0,
                        c > 0,
                        count * c < n,
                        (count + 1) * c >= n,
                {
                    let q = n / c;
                    assert(n == q * c);
                    assert(q > count);
                    assert(q <= count + 1);
                }
                assert((count + 2) * c >= n + 1) by (nonlinear_arith)
                    requires
                        n == (count + 1) * c,
                        c > 0,
                ;
            } else {
                assert((count + 1) * c != n) by (nonlinear_arith)
                    requires
                        n % c != 0,
                        c > 0,
                {
                    if (count + 1) * c == n {
                        assert(((count + 1) * c) % c == 0);
                    }
                }
            }
        } else {
            assert((0 + 1) * c >= 1) by (nonlinear_arith)
                requires
                    c > 0,
            ;
            assert(0 * c < 1) by (nonlinear_arith);
        }
    }
}

/// Each cost is lower than all before it.
pub open spec fn strictly_falling(costs: Seq<u64>) -> bool {
    forall|i: int, j: int| 0 <= i < j < costs.len() ==> costs[i] > costs[j]
}

/// The new best solutions among two sequences of events, one after the
/// other, are those of the first followed by those of the second.
pub proof fn lemma_improvements_of_concat(first: Seq<Event>, second: Seq<Event>)
    ensures
        improvements_of(first + second) == improvements_of(first) + improvements_of(second),
    decreases second.len(),
{
    if second.len() == 0 {
        assert(first + second == first);
        assert(improvements_of(first) + improvements_of(second) == improvements_of(first));
    } else {
        lemma_improvements_of_concat(first, second.drop_last());
        assert((first + second).drop_last() == first + second.drop_last());
        assert((first + second).last() == second.last());
        match second.last() {
            Event::NewBest(_, cost) => {
                assert((improvements_of(first) + improvements_of(second.drop_last())).push(cost)
                    == improvements_of(first) + improvements_of(second.drop_last()).push(cost));
            },
            _ => {},
        }
    }
}

/// The new best solutions of one iteration: the candidate, where it is one.
pub proof fn lemma_conclusion_improvements(
    state: SearchState,
    parameters: Parameters,
    text: Seq<char>,
    cost: u64,
    verdict: bool,
)
    ensures
        improvements_of(conclusion_events(state, parameters, text, cost, verdict)) == if improves(
            state,
            cost,
            verdict,
        ) {
            seq![cost]
        } else {
            Seq::<u64>::empty()
        },
{
    let told = conclusion_events(state, parameters, text, cost, verdict);
    let progress = if progress_due(state.iteration, parameters.progress_cadence) {
        seq![Event::Progress(state.iteration)]
    } else {
        Seq::<Event>::empty()
    };
    assert(improvements_of(progress) == Seq::<u64>::empty()) by {
        if progress.len() > 0 {
            assert(progress.drop_last() == Seq::<Event>::empty());
            assert(improvements_of(progress.drop_last()) == Seq::<u64>::empty());
        }
    }
    if improves(state, cost, verdict) {
        assert(told.drop_last() == progress);
        assert(Seq::<u64>::empty().push(cost) == seq![cost]);
    }
}

/// Every new best solution that a run reports costs less than all that were
/// reported before it and less than the solution from which the run
/// started, and the last one reported is the best solution at the end. A
/// run that reports none ends with the best solution with which it started.
pub proof fn lemma_run_improvements(
    start: SearchState,
    base: Seq<char>,
    slots: Seq<char>,
    parameters: Parameters,
    inputs: Seq<(u64, bool)>,
)
    requires
        usable(parameters),
        state_valid(start, parameters, slots.len()),
        start.iteration + inputs.len() <= parameters.max_iters,
    ensures
        ({
            let costs = improvements_of(run_events(start, base, slots, parameters, inputs));
            let end = run_state(start, parameters, inputs);
            &&& strictly_falling(costs)
            &&& forall|i: int| 0 <= i < costs.len() ==> #[trigger] costs[i] < start.best_cost
            &&& costs.len() > 0 ==> costs.last() == end.best_cost
            &&& costs.len() == 0 ==> end.best_cost == start.best_cost && end.best == start.best
        }),
    decreases inputs.len(),
{
    if inputs.len() > 0 {
        let front = inputs.drop_last();
        lemma_run_improvements(start, base, slots, parameters, front);
        lemma_run_valid(start, parameters, slots.len(), front);
        let before = run_state(start, parameters, front);
        let judged = proposed(before, parameters);
        let text = render_spec(base, slots, pending_candidate(judged));
        let cost = inputs.last().0;
        let verdict = inputs.last().1;
        let told = conclusion_events(judged, parameters, text, cost, verdict);
        let earlier = improvements_of(run_events(start, base, slots, parameters, front));
        lemma_improvements_of_concat(run_events(start, base, slots, parameters, front), told);
        lemma_conclusion_improvements(judged, parameters, text, cost, verdict);
        let costs = improvements_of(run_events(start, base, slots, parameters, inputs));
        if improves(judged, cost, verdict) {
            assert(costs == earlier + seq![cost]);
            assert(costs =~= earlier.push(cost));
            assert forall|i: int, j: int| 0 <= i < j < costs.len() implies costs[i] > costs[j] by {
                if j == earlier.len() {
                    if i < earlier.len() - 1 {
                        assert(earlier[i] > earlier[earlier.len() - 1]);
                    }
                    assert(earlier.last() == before.best_cost);
                } else {
                    assert(earlier[i] > earlier[j]);
                }
            }
            assert forall|i: int| 0 <= i < costs.len() implies #[trigger] costs[i]
                < start.best_cost by {
                if i < earlier.len() {
                    assert(earlier[i] < start.best_cost);
                }
            }
        } else {
            assert(costs == earlier + Seq::<u64>::empty());
            assert(costs =~= earlier);
        }
    }
}

} // verus!
