use evolve_keyboard_layout::cache::{evaluate_through, Cache};
use evolve_keyboard_layout::error::{AlreadyTerminatedError, EvaluationError};
use evolve_keyboard_layout::evaluation::EvaluationResult;
use evolve_keyboard_layout::evaluator::LayoutEvaluator;
use evolve_keyboard_layout::generator::PermutationLayoutGenerator;
use evolve_keyboard_layout::genetic::{
    GenerationReport, LayoutOptimizer, Parameters, Phase, StepOutcome,
};
use evolve_keyboard_layout::layout::Layout;
use evolve_keyboard_layout::permutation::check_permutation;
use genevo::ga::GeneticAlgorithm;
use genevo::operator::prelude::{
    ElitistReinserter, MaximizeSelector, OrderOneCrossover, SwapOrderMutator,
};
use genevo::prelude::{
    genetic_algorithm, simulate, FitnessFunction, GenerationLimit, Population, SimResult,
    Simulation, SimulationBuilder,
};
use genevo::simulation::simulator::Simulator;
use std::sync::{Arc, Mutex};

type Genome = Vec<usize>;
type Scorer = fn(&Layout) -> Result<EvaluationResult, EvaluationError>;

// The cost of a layout: for each character, how far it stands from its
// position in the alphabet.
fn distance(layout: &Layout) -> Result<EvaluationResult, EvaluationError> {
    let mut costs = Vec::new();
    for (position, symbol) in layout.as_text().chars().enumerate() {
        let home = (symbol as u64).wrapping_sub('a' as u64);
        costs.push(home.abs_diff(position as u64));
    }
    Ok(EvaluationResult::new(costs))
}

#[derive(Clone)]
struct FitnessCalc {
    generator: PermutationLayoutGenerator,
    judge: Arc<LayoutEvaluator<Scorer>>,
    cache: Arc<Mutex<Cache>>,
}

impl std::fmt::Debug for FitnessCalc {
    fn fmt(&self, f: &mut std::fmt::Formatter<'_>) -> std::fmt::Result {
        f.debug_struct("FitnessCalc").field("generator", &self.generator).finish()
    }
}

impl FitnessFunction<Genome, usize> for FitnessCalc {
    fn fitness_of(&self, genome: &Genome) -> usize {
        let mut cache = self.cache.lock().unwrap();
        match evaluate_through(&mut *cache, &self.generator, &*self.judge, genome) {
            Ok(result) => 1000 - result.total_cost() as usize,
            Err(_) => 0,
        }
    }

    fn average(&self, fitness_values: &[usize]) -> usize {
        fitness_values.iter().sum::<usize>() / fitness_values.len()
    }

    fn highest_possible_fitness(&self) -> usize {
        1000
    }

    fn lowest_possible_fitness(&self) -> usize {
        0
    }
}

type Algorithm = GeneticAlgorithm<
    Genome,
    usize,
    FitnessCalc,
    MaximizeSelector,
    OrderOneCrossover,
    SwapOrderMutator,
    ElitistReinserter<Genome, usize, FitnessCalc>,
>;

fn strategy(
    layout: &str,
    fixed: &str,
    population: Vec<Genome>,
    generations: u64,
) -> Simulator<Algorithm, GenerationLimit> {
    let fitness = FitnessCalc {
        generator: PermutationLayoutGenerator::from_layout(layout, fixed).unwrap(),
        judge: Arc::new(LayoutEvaluator::new("abcdefgh", distance as Scorer).unwrap()),
        cache: Arc::new(Mutex::new(Cache::new())),
    };
    let algorithm = genetic_algorithm()
        .with_evaluation(fitness.clone())
        .with_selection(MaximizeSelector::new(0.7, 2))
        .with_crossover(OrderOneCrossover::new())
        .with_mutation(SwapOrderMutator::new(0.2))
        .with_reinsertion(ElitistReinserter::new(fitness, true, 0.7))
        .with_initial_population(Population::with_individuals(population))
        .build();
    simulate(algorithm).until(GenerationLimit::new(generations)).build()
}

fn report_of(simulator: &mut Simulator<Algorithm, GenerationLimit>) -> GenerationReport {
    match simulator.step() {
        Ok(SimResult::Intermediate(step)) => {
            let best = step.result.best_solution.solution;
            GenerationReport::Intermediate {
                fitness: best.fitness,
                genome: best.genome,
                population: step.result.evaluated_population.individuals().to_vec(),
            }
        }
        Ok(SimResult::Final(_, _, _, _)) => GenerationReport::Final,
        Err(error) => GenerationReport::Failed(format!("{}", error)),
    }
}

#[test]
fn search_with_a_genetic_strategy() {
    let parameters = Parameters {
        population_size: 20,
        generation_limit: 15,
        num_individuals_per_parents: 2,
        selection_ratio: 700_000,
        mutation_rate: 200_000,
        reinsertion_ratio: 700_000,
    };
    let evaluator = LayoutEvaluator::new("abcdefgh", distance as Scorer).unwrap();
    let mut optimizer =
        LayoutOptimizer::new("hgfedcba", parameters, evaluator, "e", false, 2).unwrap();
    let mut simulator = strategy("hgfedcba", "e", optimizer.population(), 15);
    let mut before: Option<usize> = None;
    let mut steps = 0;
    loop {
        let outcome = optimizer.step(|| report_of(&mut simulator)).unwrap();
        steps += 1;
        match outcome {
            StepOutcome::Intermediate(evaluation) => {
                let now = optimizer.best_fitness().unwrap();
                if let Some(earlier) = before {
                    assert!(now >= earlier);
                }
                before = Some(now);
                // every genome that the strategy made is a permutation
                for member in optimizer.population().iter() {
                    assert!(check_permutation(member, 7));
                }
                // the evaluation told is that of the best solution of the whole run
                let text = evaluation.layout.unwrap();
                assert_eq!(Some(text.clone()), optimizer.best_layout());
                assert_eq!(text.chars().nth(3), Some('e'));
                assert_eq!(evaluation.total_cost as usize, 1000 - now);
            }
            StepOutcome::Final => break,
            StepOutcome::Failed(failure) => panic!("the search failed: {:?}", failure),
        }
        assert!(steps <= 15);
    }
    assert_eq!(optimizer.phase(), Phase::Converged);
    assert!(before.is_some());
    assert_eq!(
        optimizer.step(|| report_of(&mut simulator)),
        Err(AlreadyTerminatedError)
    );
}
