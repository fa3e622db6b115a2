use evolve_keyboard_layout::evaluation::{EvaluationResult, LayoutEvaluation};
use evolve_keyboard_layout::layout::{Layout, LayoutKey};

#[test]
fn total_cost_is_the_sum() {
    assert_eq!(EvaluationResult::new(vec![]).total_cost(), 0);
    assert_eq!(EvaluationResult::new(vec![7]).total_cost(), 7);
    assert_eq!(EvaluationResult::new(vec![1, 20, 300]).total_cost(), 321);
}

#[test]
fn total_cost_is_held_at_the_maximum() {
    assert_eq!(EvaluationResult::new(vec![u64::MAX, 1]).total_cost(), u64::MAX);
    assert_eq!(EvaluationResult::new(vec![u64::MAX - 1, 1]).total_cost(), u64::MAX);
    assert_eq!(EvaluationResult::new(vec![u64::MAX, u64::MAX, 5]).total_cost(), u64::MAX);
    assert_eq!(EvaluationResult::new(vec![u64::MAX - 2, 1]).total_cost(), u64::MAX - 1);
}

#[test]
fn duplicate_and_criteria_keep_the_costs() {
    let result = EvaluationResult::new(vec![3, 4, 5]);
    assert_eq!(result.criteria(), vec![3, 4, 5]);
    assert_eq!(result.duplicate(), result);
}

#[test]
fn report_of_a_bare_result() {
    let result = EvaluationResult::new(vec![10, 5]);
    let report = LayoutEvaluation::from(result.duplicate());
    assert_eq!(report.total_cost, 15);
    assert_eq!(report.details, result);
    assert_eq!(report.printed, None);
    assert_eq!(report.plot, None);
    assert_eq!(report.layout, None);
}

#[test]
fn report_of_a_layout() {
    let layout = Layout::from_keys(vec![
        LayoutKey { symbol: 'q', fixed: false },
        LayoutKey { symbol: ',', fixed: true },
        LayoutKey { symbol: 'w', fixed: false },
    ]);
    assert_eq!(layout.len(), 3);
    assert_eq!(layout.as_text(), "q,w");
    assert_eq!(layout.key_at(1), Some(LayoutKey { symbol: ',', fixed: true }));
    assert_eq!(layout.key_at(3), None);
    let report = LayoutEvaluation::of_layout(
        EvaluationResult::new(vec![2, 2]),
        &layout,
        Some(String::from("two and two")),
        None,
    );
    assert_eq!(report.total_cost, 4);
    assert_eq!(report.printed, Some(String::from("two and two")));
    assert_eq!(report.plot, None);
    assert_eq!(report.layout, Some(String::from("q,w")));
}
