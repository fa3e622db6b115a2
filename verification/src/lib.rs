//! A permutation-search engine for keyboard layouts.
//!
//! A layout assigns characters to the keys of a keyboard. Some characters
//! are fixed to their keys; the others are movable, and a candidate layout
//! is a permutation of them. The crate searches the permutations for a
//! layout of low cost under an evaluation function that the caller hands in.
//!
//! * [`permutation`] and [`rng`]: permutations of the slot set, and the
//!   seedable generator from which everything random is drawn.
//! * [`generator`] and [`layout`]: the mapping between permutations, layouts
//!   and layout texts.
//! * [`evaluation`], [`evaluator`] and [`cache`]: evaluation results, the
//!   evaluator of the layouts of one keyboard, and the memory of results.
//! * [`tracker`] and [`genetic`]: the record of the best solution, and the
//!   genetic search, which is advanced one generation per call.
//! * [`annealing`] and [`sa_optimization`]: the state and the steps of a
//!   simulated annealing, and the run that makes them all and tells its
//!   callbacks what happens.
//! * [`error`] and [`text`]: the errors, and texts as sequences of
//!   characters.
//!
//! Costs are whole numbers; a lower cost is better. The genetic search
//! counts in fitness, of which a higher value is better.
pub mod annealing;
pub mod cache;
pub mod error;
pub mod evaluation;
pub mod evaluator;
pub mod generator;
pub mod genetic;
pub mod layout;
pub mod permutation;
pub mod rng;
pub mod sa_optimization;
pub mod text;
pub mod tracker;
