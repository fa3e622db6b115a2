//! The evaluator of layouts.
//!
//! An evaluator knows the keys of a keyboard by the characters of a base
//! layout, and an evaluation function. It accepts a layout text that
//! arranges those characters, and reports what the function says of it. The
//! function may fail on a layout; its failure is passed on.
use vstd::prelude::*;
use crate::error::{ConfigError, EvaluationError, OptimizationError, ParseError};
use crate::evaluation::{
    evaluated_by,
    refused_by,
    total_of,
    EvaluationResult,
    LayoutEvaluation,
};
use crate::generator::{layout_spec, missing, overlapping, unassigned, PermutationLayoutGenerator};
use crate::layout::Layout;

verus! {

/// Evaluates the layouts of one keyboard.
pub struct LayoutEvaluator<E: Fn(&Layout) -> Result<EvaluationResult, EvaluationError>> {
    keys: PermutationLayoutGenerator,
    evaluate: E,
}

impl<E: Fn(&Layout) -> Result<EvaluationResult, EvaluationError>> LayoutEvaluator<E> {
    /// The keys of the keyboard: a configuration in which every character of
    /// the base layout is movable.
    pub closed spec fn keys(&self) -> PermutationLayoutGenerator {
        self.keys
    }

    /// The evaluation function.
    pub closed spec fn scorer(&self) -> E {
        self.evaluate
    }

    /// The evaluator is in order: its keys are a valid configuration without
    /// fixed characters, and its function accepts every layout.
    pub open spec fn wf(&self) -> bool {
        &&& self.keys().wf()
        &&& self.keys().movable() == self.keys().base()
        &&& self.keys().fixed().len() == 0
        &&& forall|layout: &Layout| #[trigger] self.scorer().requires((layout,))
    }

    /// Makes an evaluator for the keyboard whose keys hold the characters of
    /// `base_layout`, with the evaluation function `evaluate`. A base layout
    /// that holds a character twice is refused.
    pub fn new(base_layout: &str, evaluate: E) -> (made: Result<LayoutEvaluator<E>, ConfigError>)
        requires
            forall|layout: &Layout| #[trigger] evaluate.requires((layout,)),
        ensures
            match made {
                Ok(evaluator) => {
                    &&& base_layout@.no_duplicates()
                    &&& evaluator.wf()
                    &&& evaluator.keys().base() == base_layout@
                    &&& evaluator.scorer() == evaluate
                },
                Err(fault) => !base_layout@.no_duplicates() && fault
                    == ConfigError::DuplicateInLayout,
            },
    {
        proof {
            reveal_strlit("");
            reveal(unassigned);
            reveal(missing);
            reveal(overlapping);
        }
        match PermutationLayoutGenerator::construct(base_layout, "", base_layout) {
            Ok(keys) => Ok(LayoutEvaluator { keys, evaluate }),
            Err(fault) => {
                Err(fault)
            },
        }
    }

    /// The characters of the keys, in the order of the base layout.
    pub fn permutable_keys(&self) -> (keys: Vec<char>)
        ensures
            keys@ == self.keys().movable(),
    {
        self.keys.permutable_keys()
    }

    /// What the evaluation function says of `layout`: a result, or why it
    /// has failed.
    pub fn score(&self, layout: &Layout) -> (answer: Result<EvaluationResult, EvaluationError>)
        requires
            self.wf(),
        ensures
            self.scorer().ensures((layout,), answer),
            match answer {
                Ok(result) => evaluated_by(self.scorer(), layout@, result@),
                Err(error) => refused_by(self.scorer(), layout@, error),
            },
    {
        assert(self.scorer().requires((layout,)));
        (self.evaluate)(layout)
    }

    /// Tells what is wrong with `layout_str` as a layout of this keyboard,
    /// if anything.
    pub fn check(&self, layout_str: &str) -> (found: Option<ParseError>)
        requires
            self.wf(),
        ensures
            found == self.keys().fault_of(layout_str@),
    {
        match self.keys.permutation_for(layout_str) {
            Ok(_) => None,
            Err(fault) => Some(fault),
        }
    }

    /// Evaluates the layout `layout_str` and reports the result with its
    /// total cost and the layout text. Nothing is rendered: the result in
    /// words and the drawing are left to the caller. A text that does not
    /// arrange the characters of the keys, each once, is refused and not
    /// evaluated; a failure of the evaluation function is passed on.
    pub fn evaluate(&self, layout_str: &str) -> (answer: Result<LayoutEvaluation, OptimizationError>)
        requires
            self.wf(),
        ensures
            match answer {
                Ok(report) => {
                    &&& self.keys().fault_of(layout_str@) is None
                    &&& evaluated_by(
                        self.scorer(),
                        layout_spec(
                            self.keys().base(),
                            self.keys().movable(),
                            self.keys().parsed(layout_str@),
                        ),
                        report.details@,
                    )
                    &&& report.total_cost == total_of(report.details@)
                    &&& report.layout matches Some(text) && text@ == layout_str@
                    &&& report.printed is None
                    &&& report.plot is None
                },
                Err(OptimizationError::Parse(fault)) => self.keys().fault_of(layout_str@) == Some(
                    fault,
                ),
                Err(OptimizationError::Evaluation(error)) => {
                    &&& self.keys().fault_of(layout_str@) is None
                    &&& refused_by(
                        self.scorer(),
                        layout_spec(
                            self.keys().base(),
                            self.keys().movable(),
                            self.keys().parsed(layout_str@),
                        ),
                        error,
                    )
                },
                Err(_) => false,
            },
    {
        let p: Vec<usize> = match self.keys.permutation_for(layout_str) {
            Ok(p) => p,
            Err(fault) => {
                return Err(OptimizationError::Parse(fault));
            },
        };
        let layout: Layout = match self.keys.generate_layout(&p) {
            Ok(layout) => layout,
            Err(_) => Layout::from_keys(Vec::new()),
        };
        match self.score(&layout) {
            Ok(result) => Ok(LayoutEvaluation::of_layout(result, &layout, None, None)),
            Err(error) => Err(OptimizationError::Evaluation(error)),
        }
    }
}

} // verus!
