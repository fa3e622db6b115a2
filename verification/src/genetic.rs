//! The genetic search, one generation at a time.
//!
//! The optimizer does not run a loop of its own. Each call of `step` lets the
//! strategy advance by one generation and folds what it reports into the
//! record of the best solution of the whole run. How the strategy selects,
//! recombines and mutates is its own matter; the optimizer checks that what
//! comes back is a population of permutations. A strategy that fails, a
//! generation that is not in order and an evaluation function that fails on
//! the best solution end the search as failed.
use vstd::prelude::*;
use crate::cache::Cache;
use crate::error::{
    AlreadyTerminatedError,
    EvaluationError,
    InvalidParameterError,
    InvalidPermutationError,
    OptimizationError,
};
use crate::evaluation::{
    evaluated_by,
    refused_by,
    total_of,
    EvaluationResult,
    LayoutEvaluation,
};
use crate::evaluator::LayoutEvaluator;
use crate::generator::{config_fault, derived_slots, layout_spec, PermutationLayoutGenerator};
use crate::layout::Layout;
use crate::permutation::{
    find_permutation_fault,
    identity_spec,
    is_permutation,
    permutation_fault,
    random_permutation_spec,
    views_of,
};
use crate::rng::SearchRng;
use crate::tracker::{not_worse, offer_spec, BestTracker, Held};

verus! {

/// One million: the rates of the parameters are given in parts of it.
pub const RATE_SCALE: u32 = 1_000_000u32;

/// The parameters of a genetic search. Rates are given in parts per million.
#[derive(Clone, Copy, Debug, PartialEq, Eq)]
pub struct Parameters {
    /// The number of individuals in each generation.
    pub population_size: usize,
    /// The number of generations after which the search ends.
    pub generation_limit: u64,
    /// The number of individuals that make up one set of parents.
    pub num_individuals_per_parents: usize,
    /// The share of the population that is selected for breeding.
    pub selection_ratio: u32,
    /// The chance that a genome is mutated.
    pub mutation_rate: u32,
    /// The share of the population that the offspring replaces.
    pub reinsertion_ratio: u32,
}

/// `rate`, and one million where it is larger.
pub open spec fn corrected_rate(rate: u32) -> u32 {
    if rate > RATE_SCALE {
        RATE_SCALE
    } else {
        rate
    }
}

/// What is wrong with the parameters beyond correction, if anything.
pub open spec fn parameter_fault(parameters: Parameters) -> Option<InvalidParameterError> {
    if parameters.population_size == 0 {
        Some(InvalidParameterError::EmptyPopulation)
    } else if parameters.generation_limit == 0 {
        Some(InvalidParameterError::NoGenerations)
    } else if parameters.num_individuals_per_parents < 2 {
        Some(InvalidParameterError::TooFewParents)
    } else {
        None
    }
}

/// The parameters with every rate corrected.
pub open spec fn corrected(parameters: Parameters) -> Parameters {
    Parameters {
        population_size: parameters.population_size,
        generation_limit: parameters.generation_limit,
        num_individuals_per_parents: parameters.num_individuals_per_parents,
        selection_ratio: corrected_rate(parameters.selection_ratio),
        mutation_rate: corrected_rate(parameters.mutation_rate),
        reinsertion_ratio: corrected_rate(parameters.reinsertion_ratio),
    }
}

impl Parameters {
    /// Checks the parameters. A rate above one million parts per million is
    /// corrected to one million. An empty population, a generation limit of
    /// zero and fewer than two individuals per parents cannot be corrected
    /// and are refused.
    pub fn validated(self) -> (checked: Result<Parameters, InvalidParameterError>)
        ensures
            checked == match parameter_fault(self) {
                Some(fault) => Err::<Parameters, InvalidParameterError>(fault),
                None => Ok(corrected(self)),
            },
    {
        if self.population_size == 0 {
            return Err(InvalidParameterError::EmptyPopulation);
        }
        if self.generation_limit == 0 {
            return Err(InvalidParameterError::NoGenerations);
        }
        if self.num_individuals_per_parents < 2 {
            return Err(InvalidParameterError::TooFewParents);
        }
        Ok(
            Parameters {
                population_size: self.population_size,
                generation_limit: self.generation_limit,
                num_individuals_per_parents: self.num_individuals_per_parents,
                selection_ratio: correct_rate(self.selection_ratio),
                mutation_rate: correct_rate(self.mutation_rate),
                reinsertion_ratio: correct_rate(self.reinsertion_ratio),
            },
        )
    }
}

/// Corrects a rate that is above one million parts per million.
pub fn correct_rate(rate: u32) -> (fixed: u32)
    ensures
        fixed == corrected_rate(rate),
{
    if rate > RATE_SCALE {
        RATE_SCALE
    } else {
        rate
    }
}

/// Where a search stands.
#[derive(Clone, Copy, Debug, PartialEq, Eq)]
pub enum Phase {
    /// The search takes steps.
    Stepping,
    /// The strategy has ended the search.
    Converged,
    /// The search has failed.
    Failed,
}

/// What the strategy reports of one generation.
#[derive(Clone, Debug, PartialEq, Eq)]
pub enum GenerationReport {
    /// The generation was made, and the search goes on.
    Intermediate {
        /// The fitness of the best genome of this generation.
        fitness: usize,
        /// The best genome of this generation.
        genome: Vec<usize>,
        /// The genomes of this generation.
        population: Vec<Vec<usize>>,
    },
    /// The strategy has met its stopping criteria.
    Final,
    /// The strategy has failed, for the reason given.
    Failed(String),
}

/// Why a step failed.
#[derive(Clone, Debug, PartialEq, Eq)]
pub enum StepFailure {
    /// The strategy has failed, for the reason given.
    Strategy(String),
    /// The best genome reported is no permutation of the slot set.
    InvalidGenome(InvalidPermutationError),
    /// The population reported does not have the configured size.
    PopulationSize,
    /// A genome of the population reported is no permutation of the slot set.
    InvalidPopulation,
    /// The evaluation function has failed on the best solution.
    Evaluation(EvaluationError),
}

/// What a step tells the caller.
#[derive(Clone, Debug, PartialEq, Eq)]
pub enum StepOutcome {
    /// The search goes on. The evaluation is that of the best solution of
    /// the whole run, which need not be of this generation.
    Intermediate(LayoutEvaluation),
    /// The strategy has ended the search.
    Final,
    /// The search has failed.
    Failed(StepFailure),
}

/// Every member of `population` is a permutation of `slots` slots.
pub open spec fn all_permutations(population: Seq<Seq<usize>>, slots: nat) -> bool {
    forall|i: int| 0 <= i < population.len() ==> is_permutation(#[trigger] population[i], slots)
}

/// What is wrong with the report of a generation, if anything: with its best
/// genome first, then with the size of its population, then with its members.
pub open spec fn generation_fault(
    genome: Seq<usize>,
    population: Seq<Seq<usize>>,
    slots: nat,
    size: nat,
) -> Option<StepFailure> {
    match permutation_fault(genome, slots) {
        Some(fault) => Some(StepFailure::InvalidGenome(fault)),
        None => if population.len() != size {
            Some(StepFailure::PopulationSize)
        } else if !all_permutations(population, slots) {
            Some(StepFailure::InvalidPopulation)
        } else {
            None
        },
    }
}

/// The first `count` members of an initial population and the state in which
/// the generator is left. With `seeded`, the first member is the identity,
/// which stands for the starting layout; every other member is a random
/// permutation.
pub open spec fn populate_spec(slots: nat, state: u64, seeded: bool, count: nat) -> (
    Seq<Seq<usize>>,
    u64,
)
    decreases count,
{
    if count == 0 {
        (Seq::empty(), state)
    } else {
        let (front, reached) = populate_spec(slots, state, seeded, (count - 1) as nat);
        if seeded && count == 1 {
            (front.push(identity_spec(slots)), reached)
        } else {
            let (member, next) = random_permutation_spec(slots, reached);
            (front.push(member), next)
        }
    }
}

/// An initial population consists of permutations, one per member asked for.
pub proof fn lemma_populate_valid(slots: nat, state: u64, seeded: bool, count: nat)
    requires
        slots <= usize::MAX,
    ensures
        populate_spec(slots, state, seeded, count).0.len() == count,
        all_permutations(populate_spec(slots, state, seeded, count).0, slots),
    decreases count,
{
    if count > 0 {
        lemma_populate_valid(slots, state, seeded, (count - 1) as nat);
        let (front, reached) = populate_spec(slots, state, seeded, (count - 1) as nat);
        crate::permutation::lemma_identity_is_permutation(slots);
        crate::permutation::lemma_shuffle_is_permutation(
            identity_spec(slots),
            reached,
            crate::permutation::shuffle_steps(slots),
        );
    }
}

/// Builds an initial population of `count` members.
pub fn populate(
    generator: &PermutationLayoutGenerator,
    rng: &mut SearchRng,
    seeded: bool,
    count: usize,
) -> (population: Vec<Vec<usize>>)
    ensures
        views_of(population@) == populate_spec(
            generator.movable().len(),
            old(rng)@,
            seeded,
            count as nat,
        ).0,
        final(rng)@ == populate_spec(generator.movable().len(), old(rng)@, seeded, count as nat).1,
        population.len() == count,
        all_permutations(views_of(population@), generator.movable().len()),
{
    let slots: usize = generator.slot_count();
    proof {
        lemma_populate_valid(slots as nat, rng@, seeded, count as nat);
    }
    let mut population: Vec<Vec<usize>> = Vec::new();
    let mut made: usize = 0;
    while made < count
        invariant
            made <= count,
            slots == generator.movable().len(),
            population.len() == made,
            views_of(population@) == populate_spec(slots as nat, old(rng)@, seeded, made as nat).0,
            rng@ == populate_spec(slots as nat, old(rng)@, seeded, made as nat).1,
        decreases count - made,
    {
        let ghost before = views_of(population@);
        let member: Vec<usize> = if seeded && made == 0 {
            generator.identity_permutation()
        } else {
            generator.generate_random(rng)
        };
        population.push(member);
        assert(views_of(population@) =~= before.push(member@));
        made += 1;
    }
    population
}

/// Why the report `report` makes a step fail, if it does.
pub open spec fn report_failure(report: GenerationReport, slots: nat, size: nat) -> Option<
    StepFailure,
> {
    match report {
        GenerationReport::Intermediate { fitness, genome, population } => generation_fault(
            genome@,
            views_of(population@),
            slots,
            size,
        ),
        GenerationReport::Final => None,
        GenerationReport::Failed(reason) => Some(StepFailure::Strategy(reason)),
    }
}

/// What a caller sees of an optimizer after it has taken in the report
/// `report`, where it showed `before` until then. A generation that is in
/// order is offered to the record of the best solution and becomes the
/// current one; the end of the strategy and a failure only change the phase.
pub open spec fn absorbed(before: OptimizerView, report: GenerationReport, slots: nat, size: nat) -> OptimizerView {
    match report {
        GenerationReport::Intermediate { fitness, genome, population } => {
            if report_failure(report, slots, size) is Some {
                OptimizerView {
                    phase: Phase::Failed,
                    best: before.best,
                    population: before.population,
                    generation: before.generation,
                }
            } else {
                OptimizerView {
                    phase: Phase::Stepping,
                    best: offer_spec(before.best, fitness, genome@),
                    population: views_of(population@),
                    generation: if before.generation < u64::MAX {
                        before.generation + 1
                    } else {
                        before.generation
                    },
                }
            }
        },
        GenerationReport::Final => OptimizerView {
            phase: Phase::Converged,
            best: before.best,
            population: before.population,
            generation: before.generation,
        },
        GenerationReport::Failed(_) => OptimizerView {
            phase: Phase::Failed,
            best: before.best,
            population: before.population,
            generation: before.generation,
        },
    }
}

/// The view `view` of a search that has failed: nothing but the phase has
/// changed.
pub open spec fn ended(view: OptimizerView) -> OptimizerView {
    OptimizerView {
        phase: Phase::Failed,
        best: view.best,
        population: view.population,
        generation: view.generation,
    }
}

/// The best solution never gets worse when a report is taken in.
pub proof fn lemma_absorbed_not_worse(
    before: OptimizerView,
    report: GenerationReport,
    slots: nat,
    size: nat,
)
    ensures
        not_worse(before.best, absorbed(before, report, slots, size).best),
{
}

/// Why a search cannot start, if it cannot: parameters that cannot be
/// corrected come first, then a starting layout that is no layout of the
/// keyboard `keys`, then a fault of the configuration that the layout and the
/// fixed characters make.
pub open spec fn start_fault(
    parameters: Parameters,
    keys: PermutationLayoutGenerator,
    layout: Seq<char>,
    fixed: Seq<char>,
) -> Option<OptimizationError> {
    match parameter_fault(parameters) {
        Some(fault) => Some(OptimizationError::InvalidParameter(fault)),
        None => match keys.fault_of(layout) {
            Some(fault) => Some(OptimizationError::Parse(fault)),
            None => match config_fault(derived_slots(layout, fixed), fixed, layout) {
                Some(fault) => Some(OptimizationError::Config(fault)),
                None => None,
            },
        },
    }
}

/// What a caller can see of an optimizer.
pub struct OptimizerView {
    /// Where the search stands.
    pub phase: Phase,
    /// The best solution of the whole run.
    pub best: Held,
    /// The genomes of the current generation.
    pub population: Seq<Seq<usize>>,
    /// The number of generations made.
    pub generation: nat,
}

/// The genetic search over the permutations of one layout configuration.
pub struct LayoutOptimizer<E: Fn(&Layout) -> Result<EvaluationResult, EvaluationError>> {
    generator: PermutationLayoutGenerator,
    parameters: Parameters,
    evaluator: LayoutEvaluator<E>,
    cache: Cache,
    tracker: BestTracker,
    phase: Phase,
    population: Vec<Vec<usize>>,
    generation: u64,
}

impl<E: Fn(&Layout) -> Result<EvaluationResult, EvaluationError>> View for LayoutOptimizer<E> {
    type V = OptimizerView;

    closed spec fn view(&self) -> OptimizerView {
        OptimizerView {
            phase: self.phase,
            best: self.tracker@,
            population: views_of(self.population@),
            generation: self.generation as nat,
        }
    }
}

impl<E: Fn(&Layout) -> Result<EvaluationResult, EvaluationError>> LayoutOptimizer<E> {
    /// The layout configuration of the search.
    pub closed spec fn layouts(&self) -> PermutationLayoutGenerator {
        self.generator
    }

    /// The parameters of the search, as they were validated.
    pub closed spec fn settings(&self) -> Parameters {
        self.parameters
    }

    /// The evaluator of the search.
    pub closed spec fn judge(&self) -> LayoutEvaluator<E> {
        self.evaluator
    }

    /// The evaluation function of the search.
    pub open spec fn evaluator(&self) -> E {
        self.judge().scorer()
    }

    /// The evaluation results that the search remembers.
    pub closed spec fn remembered(&self) -> Map<Seq<usize>, Seq<u64>> {
        self.cache@
    }

    /// The number of slots of the configuration.
    pub open spec fn slots(&self) -> nat {
        self.layouts().movable().len()
    }

    /// Every result that the search remembers for a permutation is one that
    /// the evaluation function gave for the layout of that permutation.
    pub open spec fn remembers_truly(&self) -> bool {
        forall|p: Seq<usize>| #[trigger]
            self.remembered().contains_key(p) ==> is_permutation(p, self.slots()) && evaluated_by(
                self.evaluator(),
                layout_spec(self.layouts().base(), self.layouts().movable(), p),
                self.remembered()[p],
            )
    }

    /// The optimizer is in order: its configuration and parameters are
    /// valid, its population has the configured size and consists of
    /// permutations, the best solution is a permutation, and the evaluation
    /// function accepts every layout.
    pub closed spec fn wf(&self) -> bool {
        &&& self.generator.wf()
        &&& self.cache.wf()
        &&& parameter_fault(self.parameters) is None
        &&& self.parameters == corrected(self.parameters)
        &&& self.population@.len() == self.parameters.population_size
        &&& all_permutations(views_of(self.population@), self.slots())
        &&& (self.tracker@ matches Some((_, p)) ==> is_permutation(p, self.slots()))
        &&& self.evaluator.wf()
        &&& self.remembers_truly()
    }

    /// What `wf` says of the parts that a caller can see.
    pub proof fn lemma_wf(&self)
        requires
            self.wf(),
        ensures
            self.layouts().wf(),
            parameter_fault(self.settings()) is None,
            self.settings() == corrected(self.settings()),
            self@.population.len() == self.settings().population_size,
            all_permutations(self@.population, self.slots()),
            self@.best matches Some((_, p)) ==> is_permutation(p, self.slots()),
            self.judge().wf(),
            self.remembers_truly(),
    {
    }

    /// Makes an optimizer for the layout `layout_str` of the keyboard of
    /// `layout_evaluator`, in which the characters of `fixed_characters` stay
    /// where they are. The initial population has `population_size` random
    /// permutations drawn from a generator seeded with `seed`; with
    /// `start_with_layout` its first member is the starting layout instead.
    /// Refused are, in this order and before any permutation is made:
    /// parameters that cannot be corrected, a starting layout that is no
    /// layout of the keyboard, and fixed characters that the layout does not
    /// hold.
    pub fn new(
        layout_str: &str,
        parameters: Parameters,
        layout_evaluator: LayoutEvaluator<E>,
        fixed_characters: &str,
        start_with_layout: bool,
        seed: u64,
    ) -> (made: Result<LayoutOptimizer<E>, OptimizationError>)
        requires
            layout_evaluator.wf(),
        ensures
            match made {
                Ok(optimizer) => {
                    &&& start_fault(parameters, layout_evaluator.keys(), layout_str@, fixed_characters@)
                        is None
                    &&& optimizer.wf()
                    &&& optimizer.settings() == corrected(parameters)
                    &&& optimizer.judge() == layout_evaluator
                    &&& optimizer.layouts().base() == layout_str@
                    &&& optimizer.layouts().fixed() == fixed_characters@
                    &&& optimizer.layouts().movable() == derived_slots(
                        layout_str@,
                        fixed_characters@,
                    )
                    &&& optimizer.remembered() == Map::<Seq<usize>, Seq<u64>>::empty()
                    &&& optimizer@.phase == Phase::Stepping
                    &&& optimizer@.best is None
                    &&& optimizer@.generation == 0
                    &&& optimizer@.population == populate_spec(
                        optimizer.slots(),
                        seed,
                        start_with_layout,
                        parameters.population_size as nat,
                    ).0
                },
                Err(fault) => start_fault(
                    parameters,
                    layout_evaluator.keys(),
                    layout_str@,
                    fixed_characters@,
                ) == Some(fault),
            },
    {
        let parameters: Parameters = match parameters.validated() {
            Ok(checked) => checked,
            Err(fault) => {
                return Err(OptimizationError::InvalidParameter(fault));
            },
        };
        if let Some(fault) = layout_evaluator.check(layout_str) {
            return Err(OptimizationError::Parse(fault));
        }
        let generator: PermutationLayoutGenerator = match PermutationLayoutGenerator::from_layout(
            layout_str,
            fixed_characters,
        ) {
            Ok(generator) => generator,
            Err(fault) => {
                return Err(OptimizationError::Config(fault));
            },
        };
        let mut rng: SearchRng = SearchRng::seeded(seed);
        let population: Vec<Vec<usize>> = populate(
            &generator,
            &mut rng,
            start_with_layout,
            parameters.population_size,
        );
        Ok(
            LayoutOptimizer {
                generator,
                parameters,
                evaluator: layout_evaluator,
                cache: Cache::new(),
                tracker: BestTracker::new(),
                phase: Phase::Stepping,
                population,
                generation: 0,
            },
        )
    }

    /// The parameters of the search, as they were validated.
    pub fn parameters(&self) -> (parameters: Parameters)
        ensures
            parameters == self.settings(),
    {
        self.parameters
    }

    /// Where the search stands.
    pub fn phase(&self) -> (phase: Phase)
        ensures
            phase == self@.phase,
    {
        self.phase
    }

    /// The number of generations made.
    pub fn generation(&self) -> (generation: u64)
        ensures
            generation == self@.generation,
    {
        self.generation
    }

    /// The fitness of the best solution of the whole run, if there is one.
    pub fn best_fitness(&self) -> (fitness: Option<usize>)
        ensures
            fitness == match self@.best {
                None => None,
                Some((best, _)) => Some(best),
            },
    {
        self.tracker.best_fitness()
    }

    /// The best solution of the whole run, if there is one.
    pub fn best_permutation(&self) -> (permutation: Option<Vec<usize>>)
        ensures
            match self@.best {
                None => permutation is None,
                Some((_, held)) => permutation matches Some(p) && p@ == held,
            },
    {
        self.tracker.best_permutation()
    }

    /// The layout text of the best solution of the whole run, if there is
    /// one.
    pub fn best_layout(&self) -> (text: Option<String>)
        requires
            self.wf(),
        ensures
            match self@.best {
                None => text is None,
                Some((_, held)) => text matches Some(t) && t@ == self.layouts().render(held),
            },
    {
        match self.tracker.best_permutation() {
            None => None,
            Some(p) => match self.generator.generate_string(&p) {
                Ok(text) => Some(text),
                Err(_) => None,
            },
        }
    }

    /// A copy of the genomes of the current generation.
    pub fn population(&self) -> (members: Vec<Vec<usize>>)
        ensures
            views_of(members@) == self@.population,
    {
        let mut members: Vec<Vec<usize>> = Vec::new();
        let mut i: usize = 0;
        while i < self.population.len()
            invariant
                i <= self.population.len(),
                members.len() == i,
                forall|j: int| 0 <= j < i ==> members@[j]@ == self.population@[j]@,
            decreases self.population.len() - i,
        {
            members.push(self.population[i].clone());
            i += 1;
        }
        assert(views_of(members@) =~= views_of(self.population@));
        members
    }
}

impl<E: Fn(&Layout) -> Result<EvaluationResult, EvaluationError>> LayoutOptimizer<E> {
    /// `evaluation` is the report of the permutation `p`: its details are
    /// the result that the search remembers for `p`, its total cost is their
    /// sum, and its layout text is that of `p`. Nothing is rendered.
    pub open spec fn reports(&self, p: Seq<usize>, evaluation: LayoutEvaluation) -> bool {
        &&& self.remembered().contains_key(p)
        &&& evaluation.details@ == self.remembered()[p]
        &&& evaluation.total_cost == total_of(evaluation.details@)
        &&& evaluation.layout matches Some(text) && text@ == self.layouts().render(p)
        &&& evaluation.printed is None
        &&& evaluation.plot is None
    }

    /// The configuration, the parameters and the evaluation function are
    /// those of `before`, and every result that `before` remembered is still
    /// remembered.
    pub open spec fn continues(&self, before: Self) -> bool {
        &&& self.layouts() == before.layouts()
        &&& self.settings() == before.settings()
        &&& self.evaluator() == before.evaluator()
        &&& before.remembered().submap_of(self.remembered())
    }

    /// The evaluation function has failed with `error` on the layout of the
    /// permutation `p`, for which the search remembers no result.
    pub open spec fn refused(&self, p: Seq<usize>, error: EvaluationError) -> bool {
        &&& !self.remembered().contains_key(p)
        &&& refused_by(
            self.evaluator(),
            layout_spec(self.layouts().base(), self.layouts().movable(), p),
            error,
        )
    }

    /// This optimizer is `before` after it has taken in `report` and told the
    /// caller `outcome`. Where the report is in order and names a
    /// generation, the best solution of the whole run is evaluated: the
    /// caller is told its evaluation, or, where the evaluation function has
    /// failed, the search has ended as failed with what it had taken in.
    pub open spec fn follows(
        &self,
        before: Self,
        report: GenerationReport,
        outcome: StepOutcome,
    ) -> bool {
        let taken = absorbed(
            before@,
            report,
            before.slots(),
            before.settings().population_size as nat,
        );
        &&& self.continues(before)
        &&& match report_failure(report, before.slots(), before.settings().population_size as nat) {
            Some(failure) => self@ == taken && outcome == StepOutcome::Failed(failure)
                && self.remembered() == before.remembered(),
            None => match report {
                GenerationReport::Intermediate { .. } => {
                    &&& taken.best matches Some((_, best))
                    &&& match outcome {
                        StepOutcome::Intermediate(evaluation) => self@ == taken && self.reports(
                            best,
                            evaluation,
                        ),
                        StepOutcome::Failed(StepFailure::Evaluation(error)) => self@ == ended(
                            taken,
                        ) && self.refused(best, error) && self.remembered()
                            == before.remembered(),
                        _ => false,
                    }
                },
                _ => self@ == taken && outcome == StepOutcome::Final && self.remembered()
                    == before.remembered(),
            },
        }
    }

    /// An optimizer that remembers what `before` remembered, for the same
    /// configuration and evaluation function, remembers truly where `before`
    /// did.
    proof fn lemma_keeps_memory(&self, before: Self)
        requires
            before.remembers_truly(),
            self.remembered() == before.remembered(),
            self.layouts() == before.layouts(),
            self.evaluator() == before.evaluator(),
        ensures
            self.remembers_truly(),
    {
        assert forall|p: Seq<usize>| #[trigger] self.remembered().contains_key(p) implies is_permutation(
            p,
            self.slots(),
        ) && evaluated_by(
            self.evaluator(),
            layout_spec(self.layouts().base(), self.layouts().movable(), p),
            self.remembered()[p],
        ) by {
            assert(before.remembered().contains_key(p));
        }
    }

    /// Evaluates the best solution of the whole run, through the memory of
    /// results.
    fn evaluate_best(&mut self) -> (answer: Result<LayoutEvaluation, EvaluationError>)
        requires
            old(self).wf(),
            old(self)@.best is Some,
        ensures
            final(self).wf(),
            final(self)@ == old(self)@,
            final(self).continues(*old(self)),
            final(self)@.best matches Some((_, best)) && match answer {
                Ok(evaluation) => final(self).reports(best, evaluation),
                Err(error) => final(self).refused(best, error) && final(self).remembered()
                    == old(self).remembered(),
            },
    {
        let p: Vec<usize> = match self.tracker.best_permutation() {
            Some(p) => p,
            None => Vec::new(),
        };
        let layout: Layout = match self.generator.generate_layout(&p) {
            Ok(layout) => layout,
            Err(_) => Layout::from_keys(Vec::new()),
        };
        let result: EvaluationResult = match self.cache.lookup(&p) {
            Some(result) => result,
            None => {
                let ghost before = *self;
                let result: EvaluationResult = match self.evaluator.score(&layout) {
                    Ok(result) => result,
                    Err(error) => {
                        return Err(error);
                    },
                };
                self.cache.insert(&p, &result);
                proof {
                    assert forall|q: Seq<usize>| #[trigger]
                        self.remembered().contains_key(q) implies is_permutation(q, self.slots())
                        && evaluated_by(
                        self.evaluator(),
                        layout_spec(self.layouts().base(), self.layouts().movable(), q),
                        self.remembered()[q],
                    ) by {
                        if q == p@ {
                        } else {
                            assert(before.remembered().contains_key(q));
                        }
                    }
                }
                result
            },
        };
        Ok(LayoutEvaluation::of_layout(result, &layout, None, None))
    }

    /// Takes in a generation that the strategy has made.
    #[verifier::loop_isolation(false)]
    fn take_generation(
        &mut self,
        fitness: usize,
        genome: Vec<usize>,
        population: Vec<Vec<usize>>,
    ) -> (outcome: StepOutcome)
        requires
            old(self).wf(),
            old(self)@.phase == Phase::Stepping,
        ensures
            final(self).wf(),
            final(self).follows(
                *old(self),
                GenerationReport::Intermediate { fitness, genome, population },
                outcome,
            ),
    {
        let slots: usize = self.generator.slot_count();
        if let Some(fault) = find_permutation_fault(&genome, slots) {
            self.phase = Phase::Failed;
            proof {
                self.lemma_keeps_memory(*old(self));
            }
            return StepOutcome::Failed(StepFailure::InvalidGenome(fault));
        }
        if population.len() != self.parameters.population_size {
            self.phase = Phase::Failed;
            proof {
                self.lemma_keeps_memory(*old(self));
            }
            return StepOutcome::Failed(StepFailure::PopulationSize);
        }
        let mut i: usize = 0;
        while i < population.len()
            invariant
                i <= population.len(),
                slots == self.slots(),
                *self == *old(self),
                forall|j: int|
                    0 <= j < i ==> is_permutation(
                        #[trigger] views_of(population@)[j],
                        slots as nat,
                    ),
            decreases population.len() - i,
        {
            if find_permutation_fault(&population[i], slots).is_some() {
                assert(!is_permutation(views_of(population@)[i as int], slots as nat));
                self.phase = Phase::Failed;
                proof {
                    self.lemma_keeps_memory(*old(self));
                }
                return StepOutcome::Failed(StepFailure::InvalidPopulation);
            }
            i += 1;
        }
        self.tracker.offer(fitness, &genome);
        self.population = population;
        if self.generation < u64::MAX {
            self.generation = self.generation + 1;
        }
        proof {
            self.lemma_keeps_memory(*old(self));
        }
        match self.evaluate_best() {
            Ok(evaluation) => StepOutcome::Intermediate(evaluation),
            Err(error) => {
                let ghost taken = *self;
                self.phase = Phase::Failed;
                proof {
                    self.lemma_keeps_memory(taken);
                }
                StepOutcome::Failed(StepFailure::Evaluation(error))
            },
        }
    }

    /// Takes in what the strategy reports of one generation. A generation
    /// whose best genome or population is not in order ends the search as
    /// failed. Else the best genome is offered to the record of the best
    /// solution, the population becomes the current one, and the caller is
    /// told the evaluation of the best solution of the whole run. Where the
    /// evaluation function fails on that solution, the search ends as failed;
    /// the record of the best solution stays as it is then.
    pub fn absorb(&mut self, report: GenerationReport) -> (outcome: StepOutcome)
        requires
            old(self).wf(),
            old(self)@.phase == Phase::Stepping,
        ensures
            final(self).wf(),
            final(self).follows(*old(self), report, outcome),
            not_worse(old(self)@.best, final(self)@.best),
    {
        match report {
            GenerationReport::Intermediate { fitness, genome, population } => {
                self.take_generation(fitness, genome, population)
            },
            GenerationReport::Final => {
                self.phase = Phase::Converged;
                proof {
                    self.lemma_keeps_memory(*old(self));
                }
                StepOutcome::Final
            },
            GenerationReport::Failed(reason) => {
                self.phase = Phase::Failed;
                proof {
                    self.lemma_keeps_memory(*old(self));
                }
                StepOutcome::Failed(StepFailure::Strategy(reason))
            },
        }
    }

    /// Advances the search by one generation: lets the strategy make it by a
    /// call of `advance`, and takes in what it reports. Control returns after
    /// that one generation. A search that has ended takes no step: the call
    /// is refused, the strategy is not called, and nothing changes.
    pub fn step<S: FnOnce() -> GenerationReport>(&mut self, advance: S) -> (outcome: Result<
        StepOutcome,
        AlreadyTerminatedError,
    >)
        requires
            old(self).wf(),
            old(self)@.phase == Phase::Stepping ==> advance.requires(()),
        ensures
            final(self).wf(),
            final(self).continues(*old(self)),
            not_worse(old(self)@.best, final(self)@.best),
            old(self)@.phase != Phase::Stepping ==> (outcome is Err && final(self)@ == old(self)@
                && final(self).remembered() == old(self).remembered()),
            old(self)@.phase == Phase::Stepping ==> (outcome matches Ok(told) && exists|
                report: GenerationReport,
            |
                advance.ensures((), report) && final(self).follows(*old(self), report, told)),
    {
        match self.phase {
            Phase::Stepping => {
                let report: GenerationReport = advance();
                let told: StepOutcome = self.absorb(report);
                Ok(told)
            },
            _ => Err(AlreadyTerminatedError),
        }
    }
}

} // verus!
