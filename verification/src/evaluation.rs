//! Evaluation results.
//!
//! The cost model itself is not part of this crate: an evaluation function is
//! handed in by the caller. What it returns is a cost per criterion, or an
//! error where it cannot evaluate a layout; the total cost of a layout is the
//! sum of its costs, and a lower total is better.
use vstd::prelude::*;
use crate::error::EvaluationError;
use crate::layout::{symbols_of, Layout, LayoutKey};

verus! {

/// The sum of `costs`.
pub open spec fn sum_of(costs: Seq<u64>) -> nat
    decreases costs.len(),
{
    if costs.len() == 0 {
        0
    } else {
        sum_of(costs.drop_last()) + costs.last() as nat
    }
}

/// The total cost of an evaluation with the criteria `costs`: their sum, or
/// the largest number that fits where the sum does not.
pub open spec fn total_of(costs: Seq<u64>) -> u64 {
    if sum_of(costs) <= u64::MAX {
        sum_of(costs) as u64
    } else {
        u64::MAX
    }
}

/// The sum of a sequence with one more cost is the sum plus that cost.
pub proof fn lemma_sum_push(costs: Seq<u64>, cost: u64)
    ensures
        sum_of(costs.push(cost)) == sum_of(costs) + cost as nat,
{
    assert(costs.push(cost).drop_last() == costs);
}

/// What an evaluation function says of one layout: a cost for each criterion.
#[derive(Clone, Debug, PartialEq, Eq)]
pub struct EvaluationResult {
    criteria: Vec<u64>,
}

impl View for EvaluationResult {
    type V = Seq<u64>;

    closed spec fn view(&self) -> Seq<u64> {
        self.criteria@
    }
}

impl EvaluationResult {
    /// The result with the given cost for each criterion.
    pub fn new(criteria: Vec<u64>) -> (result: EvaluationResult)
        ensures
            result@ == criteria@,
    {
        EvaluationResult { criteria }
    }

    /// The cost of each criterion.
    pub fn criteria(&self) -> (costs: Vec<u64>)
        ensures
            costs@ == self@,
    {
        self.criteria.clone()
    }

    /// A copy of this result.
    pub fn duplicate(&self) -> (copy: EvaluationResult)
        ensures
            copy@ == self@,
    {
        EvaluationResult { criteria: self.criteria.clone() }
    }

    /// The total cost: the sum over all criteria, held at `u64::MAX` where
    /// the sum is larger.
    pub fn total_cost(&self) -> (total: u64)
        ensures
            total == total_of(self@),
    {
        let mut total: u64 = 0;
        let mut i: usize = 0;
        while i < self.criteria.len()
            invariant
                i <= self.criteria.len(),
                total == total_of(self.criteria@.take(i as int)),
            decreases self.criteria.len() - i,
        {
            proof {
                lemma_sum_push(self.criteria@.take(i as int), self.criteria@[i as int]);
                assert(self.criteria@.take(i + 1) == self.criteria@.take(i as int).push(
                    self.criteria@[i as int],
                ));
            }
            let cost: u64 = self.criteria[i];
            if cost > u64::MAX - total {
                total = u64::MAX;
            } else {
                total = total + cost;
            }
            i += 1;
        }
        assert(self.criteria@.take(self.criteria.len() as int) == self.criteria@);
        total
    }
}

/// An evaluation as it is reported to a caller: the total cost, the result
/// it was taken from, and what was rendered of the layout.
#[derive(Clone, Debug, PartialEq, Eq)]
pub struct LayoutEvaluation {
    /// The total cost of the layout.
    pub total_cost: u64,
    /// The cost of each criterion.
    pub details: EvaluationResult,
    /// The result in words, where one was rendered.
    pub printed: Option<String>,
    /// A drawing of the layout, where one was rendered.
    pub plot: Option<String>,
    /// The layout as a text, where it is known.
    pub layout: Option<String>,
}

impl From<EvaluationResult> for LayoutEvaluation {
    /// The report of a bare result: its total cost and its details, and
    /// nothing rendered.
    fn from(res: EvaluationResult) -> (report: LayoutEvaluation) {
        let total_cost: u64 = res.total_cost();
        LayoutEvaluation { total_cost, details: res, printed: None, plot: None, layout: None }
    }
}

impl vstd::std_specs::convert::FromSpecImpl<EvaluationResult> for LayoutEvaluation {
    open spec fn obeys_from_spec() -> bool {
        true
    }

    open spec fn from_spec(res: EvaluationResult) -> LayoutEvaluation {
        LayoutEvaluation {
            total_cost: total_of(res@),
            details: res,
            printed: None,
            plot: None,
            layout: None,
        }
    }
}

impl LayoutEvaluation {
    /// The report of `res` for the layout `layout`, with what was rendered of
    /// it: the result in words and a drawing.
    pub fn of_layout(
        res: EvaluationResult,
        layout: &Layout,
        printed: Option<String>,
        plot: Option<String>,
    ) -> (report: LayoutEvaluation)
        ensures
            report.total_cost == total_of(res@),
            report.details == res,
            report.printed == printed,
            report.plot == plot,
            report.layout matches Some(text) && text@ == symbols_of(layout@),
    {
        let mut report: LayoutEvaluation = LayoutEvaluation::from(res);
        report.printed = printed;
        report.plot = plot;
        report.layout = Some(layout.as_text());
        report
    }
}

/// `costs` is what `evaluate` has returned, or can return, for a layout with
/// the keys `keys`.
pub open spec fn evaluated_by<E: Fn(&Layout) -> Result<EvaluationResult, EvaluationError>>(
    evaluate: E,
    keys: Seq<LayoutKey>,
    costs: Seq<u64>,
) -> bool {
    exists|layout: Layout, result: EvaluationResult|
        layout@ == keys && result@ == costs && #[trigger] evaluate.ensures(
            (&layout,),
            Ok(result),
        )
}

/// `evaluate` has failed, or can fail, with `error` on a layout with the
/// keys `keys`.
pub open spec fn refused_by<E: Fn(&Layout) -> Result<EvaluationResult, EvaluationError>>(
    evaluate: E,
    keys: Seq<LayoutKey>,
    error: EvaluationError,
) -> bool {
    exists|layout: Layout|
        layout@ == keys && #[trigger] evaluate.ensures((&layout,), Err(error))
}

} // verus!
