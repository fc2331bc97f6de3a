use plato_lab_guard::{ExperimentResult, GateResult, Hypothesis, HypothesisStatus, LabGuard};

fn valid_hypothesis() -> Hypothesis {
    Hypothesis::new("hyp-1", "Snapping to Pythagorean coordinates reduces drift below 0.001", 300_000)
        .with_conditions(vec!["CUDA environment".to_string(), "10K iterations".to_string()])
        .with_submitter("Forgemaster")
}

#[test]
fn test_submit_valid() {
    let mut guard = LabGuard::new();
    let result = guard.submit(valid_hypothesis());
    assert!(matches!(result, GateResult::Pass));
    assert_eq!(guard.hypothesis("hyp-1").unwrap().status, HypothesisStatus::Gated);
}

#[test]
fn test_gate_missing_claim() {
    let mut guard = LabGuard::new();
    let mut hyp = Hypothesis::new("hyp-x", "", 300_000);
    hyp.conditions = vec!["test".to_string()];
    let result = guard.submit(hyp);
    assert!(matches!(result, GateResult::Fail(_)));
}

#[test]
fn test_gate_missing_conditions() {
    let mut guard = LabGuard::new();
    let hyp = Hypothesis::new("hyp-x", "Some claim", 300_000);
    let result = guard.submit(hyp);
    assert!(matches!(result, GateResult::Fail(_)));
}

#[test]
fn test_gate_absolute_words() {
    let mut guard = LabGuard::new();
    let hyp = Hypothesis::new("hyp-x", "This always produces zero drift", 300_000)
        .with_conditions(vec!["test".to_string()]);
    let result = guard.submit(hyp);
    assert!(matches!(result, GateResult::Fail(_)));
}

#[test]
fn test_gate_invalid_threshold() {
    let mut guard = LabGuard::new();
    let hyp = Hypothesis::new("hyp-x", "Some claim", 0)
        .with_conditions(vec!["test".to_string()]);
    let result = guard.submit(hyp);
    assert!(matches!(result, GateResult::Fail(_)));
}

#[test]
fn test_gate_novelty() {
    let mut guard = LabGuard::new();
    guard.submit(valid_hypothesis());
    // Submit same ID again
    let hyp2 = Hypothesis::new("hyp-1", "Different claim about drift", 300_000)
        .with_conditions(vec!["test".to_string()]);
    let result = guard.submit(hyp2);
    assert!(matches!(result, GateResult::Fail(_)));
}

#[test]
fn test_evaluate_confirmed() {
    let mut guard = LabGuard::new();
    guard.submit(valid_hypothesis());

    let result = ExperimentResult {
        hypothesis_id: "hyp-1".to_string(),
        comprehension: 950_000,
        generalization: 900_000,
        retention: 880_000,
        raw_accuracy: 990_000,
        details: "Strong results".to_string(),
    };

    let verdict = guard.evaluate(&result).unwrap();
    assert_eq!(verdict.status, HypothesisStatus::Confirmed);
    // loss = 1 - (0.95 * 0.90 * 0.88) = 1 - 0.7524 = 0.2476
    assert!(verdict.achievement_loss < 300_000_000_000_000_000);
    assert!(verdict.passed);
}

#[test]
fn test_evaluate_falsified() {
    let mut guard = LabGuard::new();
    guard.submit(valid_hypothesis());

    let result = ExperimentResult {
        hypothesis_id: "hyp-1".to_string(),
        comprehension: 300_000,
        generalization: 200_000,
        retention: 100_000,
        raw_accuracy: 950_000,
        details: "Poor learning".to_string(),
    };

    let verdict = guard.evaluate(&result).unwrap();
    assert_eq!(verdict.status, HypothesisStatus::Falsified);
    assert!(!verdict.passed);
}

#[test]
fn test_evaluate_inconclusive() {
    let mut guard = LabGuard::new().with_loss_threshold(200_000);
    guard.submit(Hypothesis::new("hyp-1", "Some claim", 500_000)
        .with_conditions(vec!["test".to_string()]));

    let result = ExperimentResult {
        hypothesis_id: "hyp-1".to_string(),
        comprehension: 700_000,
        generalization: 600_000,
        retention: 500_000,
        raw_accuracy: 800_000,
        details: "Mixed".to_string(),
    };

    // loss = 1 - (0.7 * 0.6 * 0.5) = 1 - 0.21 = 0.79
    let verdict = guard.evaluate(&result).unwrap();
    assert_eq!(verdict.status, HypothesisStatus::Falsified);
}

#[test]
fn test_cherry_pick_warning() {
    let mut guard = LabGuard::new();
    guard.submit(valid_hypothesis());

    let result = ExperimentResult {
        hypothesis_id: "hyp-1".to_string(),
        comprehension: 400_000,
        generalization: 300_000,
        retention: 300_000,
        raw_accuracy: 990_000, // cherry-picked!
        details: "Looks great on paper".to_string(),
    };

    let verdict = guard.evaluate(&result).unwrap();
    assert!(!verdict.warning.is_empty());
    assert!(verdict.warning.contains("CHERRY-PICK"));
}

#[test]
fn test_no_cherry_pick_warning() {
    let mut guard = LabGuard::new();
    guard.submit(valid_hypothesis());

    let result = ExperimentResult {
        hypothesis_id: "hyp-1".to_string(),
        comprehension: 900_000,
        generalization: 880_000,
        retention: 850_000,
        raw_accuracy: 920_000,
        details: "Consistent".to_string(),
    };

    let verdict = guard.evaluate(&result).unwrap();
    assert!(verdict.warning.is_empty());
}

#[test]
fn test_achievement_loss_formula() {
    let result = ExperimentResult {
        hypothesis_id: "test".to_string(),
        comprehension: 500_000,
        generalization: 500_000,
        retention: 500_000,
        raw_accuracy: 900_000,
        details: String::new(),
    };
    // loss = 1 - (0.5 * 0.5 * 0.5) = 1 - 0.125 = 0.875
    assert!((result.achievement_loss() - 875_000_000_000_000_000).abs() < 1_000_000_000_000_000);
}

#[test]
fn test_stats() {
    let mut guard = LabGuard::new();
    guard.submit(valid_hypothesis());

    assert_eq!(guard.confirmed_count(), 0);
    assert_eq!(guard.falsified_count(), 0);
    assert_eq!(guard.total_evaluated(), 0);

    let result = ExperimentResult {
        hypothesis_id: "hyp-1".to_string(),
        comprehension: 950_000,
        generalization: 900_000,
        retention: 880_000,
        raw_accuracy: 990_000,
        details: String::new(),
    };
    guard.evaluate(&result);

    assert_eq!(guard.confirmed_count(), 1);
    assert_eq!(guard.total_evaluated(), 1);
    assert!(guard.average_loss() > 0);
}

#[test]
fn test_by_status() {
    let mut guard = LabGuard::new();
    guard.submit(valid_hypothesis());
    let gated = guard.by_status(HypothesisStatus::Gated);
    assert_eq!(gated.len(), 1);
}

#[test]
fn test_verdict_details() {
    let mut guard = LabGuard::new();
    guard.submit(valid_hypothesis());

    let result = ExperimentResult {
        hypothesis_id: "hyp-1".to_string(),
        comprehension: 950_000,
        generalization: 900_000,
        retention: 880_000,
        raw_accuracy: 990_000,
        details: String::new(),
    };
    let verdict = guard.evaluate(&result).unwrap();
    assert!(verdict.details.contains("loss="));
    assert!(verdict.details.contains("comp="));
}

#[test]
fn test_multiple_hypotheses() {
    let mut guard = LabGuard::new();
    guard.submit(valid_hypothesis());
    guard.submit(Hypothesis::new("hyp-2", "Constraint tightening improves precision", 350_000)
        .with_conditions(vec!["test".to_string()]));

    assert_eq!(guard.by_status(HypothesisStatus::Gated).len(), 2);
}
