use plato_lab_guard::{
    achievement_loss_of, contains_absolute_word, render_fixed, ExperimentResult, GateResult,
    Hypothesis, HypothesisStatus, LabGuard, DEFAULT_LOSS_THRESHOLD, LOSS_ONE, ONE,
};

fn gated(id: &str, claim: &str, threshold: i64) -> Hypothesis {
    Hypothesis::new(id, claim, threshold).with_conditions(vec!["test".to_string()])
}

fn result(id: &str, c: u32, g: u32, r: u32, raw: u32) -> ExperimentResult {
    ExperimentResult {
        hypothesis_id: id.to_string(),
        comprehension: c,
        generalization: g,
        retention: r,
        raw_accuracy: raw,
        details: String::new(),
    }
}

fn fail_reason(outcome: GateResult) -> String {
    match outcome {
        GateResult::Fail(reason) => reason,
        GateResult::Pass => panic!("expected a failure"),
    }
}

#[test]
fn new_hypothesis_is_pending_and_bare() {
    let h = Hypothesis::new("h", "claim", 123_400).with_submitter("Ada");
    assert_eq!(h.id, "h");
    assert_eq!(h.claim, "claim");
    assert!(h.conditions.is_empty());
    assert_eq!(h.threshold, 123_400);
    assert_eq!(h.submitted_by, "Ada");
    assert_eq!(h.status, HypothesisStatus::Pending);
    assert!(h.gate_violations.is_empty());
}

#[test]
fn loss_formula_exact_values() {
    assert_eq!(achievement_loss_of(1_000_000, 1_000_000, 1_000_000), 0);
    assert_eq!(achievement_loss_of(0, 1_000_000, 1_000_000), LOSS_ONE);
    assert_eq!(achievement_loss_of(950_000, 900_000, 880_000), 247_600_000_000_000_000);
    assert_eq!(achievement_loss_of(2_000_000, 2_000_000, 2_000_000), -7_000_000_000_000_000_000);
    assert_eq!(ONE, 1_000_000);
}

#[test]
fn rendering_rounds_half_to_even() {
    assert_eq!(render_fixed(247_600_000_000, 12, 4), "0.2476");
    assert_eq!(render_fixed(3000, 4, 4), "0.3000");
    assert_eq!(render_fixed(9000, 4, 2), "0.90");
    assert_eq!(render_fixed(125, 4, 2), "0.01");
    assert_eq!(render_fixed(150, 4, 2), "0.02");
    assert_eq!(render_fixed(250, 4, 2), "0.02");
    assert_eq!(render_fixed(251, 4, 2), "0.03");
    assert_eq!(render_fixed(-5, 4, 2), "-0.00");
    assert_eq!(render_fixed(-1_234_567, 4, 4), "-123.4567");
    assert_eq!(render_fixed(12_345, 4, 0), "1");
    assert_eq!(render_fixed(i128::MIN, 0, 0), "-170141183460469231731687303715884105728");
}

#[test]
fn gate_reasons_are_joined_in_order() {
    let mut guard = LabGuard::new();
    assert_eq!(
        fail_reason(guard.submit(Hypothesis::new("a", "", 300_000).with_conditions(vec!["x".to_string()]))),
        "Missing claim"
    );
    assert_eq!(fail_reason(guard.submit(Hypothesis::new("b", "Some claim", 300_000))), "Missing conditions");
    assert_eq!(
        fail_reason(guard.submit(gated("c", "Some claim", 0))),
        "Threshold must be 0.0 < t < 1.0; Threshold must be positive"
    );
    assert_eq!(fail_reason(guard.submit(gated("d", "Some claim", 1_000_000))), "Threshold must be 0.0 < t < 1.0");
    assert_eq!(
        fail_reason(guard.submit(Hypothesis::new("e", "", -1))),
        "Missing claim; Threshold must be positive"
    );
    assert_eq!(
        fail_reason(guard.submit(gated("f", "This always produces zero drift", 300_000))),
        "Contains absolute word: check for [\"always\", \"never\", \"all\", \"none\", \"every single\", \"impossible to fail\"]"
    );
    // every failed submission is still stored, pending, with its reasons
    let stored = guard.hypothesis("c").unwrap();
    assert_eq!(stored.status, HypothesisStatus::Pending);
    assert_eq!(stored.gate_violations, vec!["Threshold must be 0.0 < t < 1.0".to_string(), "Threshold must be positive".to_string()]);
    assert_eq!(guard.by_status(HypothesisStatus::Pending).len(), 6);
}

#[test]
fn absolute_words_match_whole_words_after_lowering() {
    assert!(!contains_absolute_word("a small effect"));
    assert!(!contains_absolute_word("nonetheless, overall it is smaller and nevertheless allowed"));
    assert!(contains_absolute_word("it works for all."));
    assert!(contains_absolute_word("all"));
    assert!(contains_absolute_word("(never) again"));
    assert!(contains_absolute_word("impossible to fail here"));
    assert!(!contains_absolute_word("every singles match"));
    assert!(!contains_absolute_word("all2"));
    assert!(!contains_absolute_word("ALWAYS"));
    assert!(!contains_absolute_word("drift shrinks"));
    let mut guard = LabGuard::new();
    assert!(matches!(guard.submit(gated("h", "ALWAYS works", 300_000)), GateResult::Fail(_)));
    assert!(matches!(guard.submit(gated("k", "Every Single run drifts", 300_000)), GateResult::Fail(_)));
    assert!(matches!(guard.submit(gated("m", "Drift shrinks", 300_000)), GateResult::Pass));
    assert!(matches!(guard.submit(gated("hyp-s", "Smaller steps reduce drift", 300_000)), GateResult::Pass));
    assert!(matches!(guard.submit(gated("n", "Overall, drift is nonetheless lower", 300_000)), GateResult::Pass));
    assert!(matches!(guard.submit(gated("p", "Drift is None of the time above 0.1", 300_000)), GateResult::Fail(_)));
}

#[test]
fn resubmission_is_rejected_and_replaces_the_stored_hypothesis() {
    let mut guard = LabGuard::new();
    assert!(matches!(guard.submit(gated("hyp-1", "Drift shrinks", 300_000)), GateResult::Pass));
    assert_eq!(fail_reason(guard.submit(gated("hyp-1", "Different claim about drift", 300_000))), "Already tested");
    let stored = guard.hypothesis("hyp-1").unwrap();
    assert_eq!(stored.claim, "Different claim about drift");
    assert_eq!(stored.status, HypothesisStatus::Pending);
    assert_eq!(stored.gate_violations, vec!["Already tested".to_string()]);
    assert_eq!(guard.by_status(HypothesisStatus::Gated).len(), 0);
}

#[test]
fn evaluated_id_cannot_be_resubmitted() {
    let mut guard = LabGuard::new();
    guard.submit(gated("hyp-1", "Drift shrinks", 300_000));
    guard.evaluate(&result("hyp-1", 950_000, 900_000, 880_000, 990_000)).unwrap();
    assert_eq!(fail_reason(guard.submit(gated("hyp-1", "Drift shrinks", 300_000))), "Already tested");
}

#[test]
fn unknown_hypothesis_is_not_evaluated() {
    let mut guard = LabGuard::new();
    assert!(guard.evaluate(&result("nobody", 950_000, 900_000, 880_000, 990_000)).is_none());
    assert_eq!(guard.total_evaluated(), 0);
    assert!(guard.result("nobody").is_none());
    assert!(guard.verdict("nobody").is_none());
    assert_eq!(guard.average_loss(), 0);
}

#[test]
fn verdict_texts_are_exact() {
    let mut guard = LabGuard::new();
    guard.submit(gated("hyp-1", "Drift shrinks", 300_000));
    let v = guard.evaluate(&result("hyp-1", 950_000, 900_000, 880_000, 990_000)).unwrap();
    assert_eq!(v.details, "loss=0.2476 threshold=0.3000 comp=0.95 gen=0.90 ret=0.88");
    assert_eq!(v.warning, "");
    assert_eq!(v.threshold, 300_000);
    assert_eq!(v.raw_accuracy, 990_000);
    let w = guard.evaluate(&result("hyp-1", 400_000, 300_000, 300_000, 990_000)).unwrap();
    assert_eq!(w.warning, "CHERRY-PICK WARNING: raw_accuracy 0.99 but loss 0.96 \u{2014} results may be cherry-picked");
    assert_eq!(w.status, HypothesisStatus::Falsified);
}

#[test]
fn raw_accuracy_does_not_change_the_status() {
    let mut guard = LabGuard::new();
    guard.submit(gated("a", "Drift shrinks", 300_000));
    let low = guard.evaluate(&result("a", 400_000, 300_000, 300_000, 0)).unwrap();
    let high = guard.evaluate(&result("a", 400_000, 300_000, 300_000, 1_000_000)).unwrap();
    assert_eq!(low.status, high.status);
    assert_eq!(low.passed, high.passed);
    assert_eq!(low.achievement_loss, high.achievement_loss);
    assert!(low.warning.is_empty());
    assert!(!high.warning.is_empty());
}

#[test]
fn below_the_lab_threshold_confirms_whatever_the_own_threshold() {
    let mut guard = LabGuard::new().with_loss_threshold(900_000);
    guard.submit(gated("hyp-1", "Some claim", 500_000));
    // loss 0.79: above the own threshold 0.5, below the lab threshold 0.9
    let v = guard.evaluate(&result("hyp-1", 700_000, 600_000, 500_000, 800_000)).unwrap();
    assert_eq!(v.status, HypothesisStatus::Confirmed);
    assert!(!v.passed);
    assert_eq!(v.threshold, 500_000);
    assert_eq!(v.loss_threshold, 900_000);
    assert_eq!(guard.hypothesis("hyp-1").unwrap().status, HypothesisStatus::Confirmed);
    assert_eq!(guard.confirmed_count(), 1);
    assert_eq!(guard.falsified_count(), 0);
    assert_eq!(guard.total_evaluated(), 1);
}

#[test]
fn loss_exactly_on_the_lab_threshold_is_inconclusive() {
    let mut guard = LabGuard::new().with_loss_threshold(500_000);
    guard.submit(gated("b", "Some claim", 500_000));
    // 1 - 1 * 1 * 0.5 = 0.5 exactly
    let v = guard.evaluate(&result("b", 1_000_000, 1_000_000, 500_000, 0)).unwrap();
    assert!(v.passed);
    assert_eq!(v.status, HypothesisStatus::Inconclusive);
    assert_eq!(guard.hypothesis("b").unwrap().status, HypothesisStatus::Inconclusive);
}

#[test]
fn within_own_threshold_but_above_the_lab_threshold_is_falsified() {
    let mut guard = LabGuard::new();
    guard.submit(gated("c", "Some claim", 600_000));
    // loss 0.5: within the own threshold 0.6, above the lab threshold 0.4
    let v = guard.evaluate(&result("c", 1_000_000, 1_000_000, 500_000, 0)).unwrap();
    assert!(v.passed);
    assert_eq!(v.status, HypothesisStatus::Falsified);
}

#[test]
fn results_replace_and_verdicts_accumulate() {
    let mut guard = LabGuard::new();
    guard.submit(gated("hyp-1", "Drift shrinks", 300_000));
    guard.evaluate(&result("hyp-1", 950_000, 900_000, 880_000, 990_000));
    guard.evaluate(&result("hyp-1", 400_000, 300_000, 300_000, 990_000));
    assert_eq!(guard.result("hyp-1").unwrap().comprehension, 400_000);
    assert_eq!(guard.verdict("hyp-1").unwrap().status, HypothesisStatus::Confirmed);
    assert_eq!(guard.hypothesis("hyp-1").unwrap().status, HypothesisStatus::Falsified);
    assert_eq!(guard.total_evaluated(), 2);
    assert_eq!(guard.confirmed_count(), 1);
    assert_eq!(guard.falsified_count(), 1);
    // (0.2476 + 0.964) / 2 = 0.6058
    assert_eq!(guard.average_loss(), 605_800_000_000_000_000);
}

#[test]
fn average_loss_rounds_down() {
    let mut guard = LabGuard::new();
    guard.submit(gated("x", "Some claim", 300_000));
    guard.evaluate(&result("x", 2_000_000, 2_000_000, 2_000_000, 0));
    guard.evaluate(&result("x", 1, 1, 1, 0));
    // (-7e18 + (1e18 - 1)) / 2 = -3e18 - 0.5, rounded down
    assert_eq!(guard.average_loss(), -3_000_000_000_000_000_001);
}

#[test]
fn by_status_keeps_submission_order() {
    let mut guard = LabGuard::default();
    guard.submit(gated("second", "Drift shrinks", 300_000));
    guard.submit(gated("first", "Drift shrinks", 300_000));
    let ids: Vec<&str> = guard.by_status(HypothesisStatus::Gated).iter().map(|h| h.id.as_str()).collect();
    assert_eq!(ids, vec!["second", "first"]);
    assert_eq!(DEFAULT_LOSS_THRESHOLD, 400_000);
}

#[test]
fn quick_start_scenario() {
    let mut guard = LabGuard::new();
    let hyp = Hypothesis::new("snap-precision", "Snapping to Pythagorean coordinates produces zero drift", 10_000);
    // no conditions were given, so the gates refuse it, but it is stored
    assert_eq!(fail_reason(guard.submit(hyp)), "Missing conditions");
    let r = ExperimentResult {
        hypothesis_id: "snap-precision".to_string(),
        comprehension: 920_000,
        generalization: 880_000,
        retention: 850_000,
        raw_accuracy: 990_000,
        details: String::new(),
    };
    // loss = 1 - (0.92 * 0.88 * 0.85) = 0.31184
    assert_eq!(r.achievement_loss(), 311_840_000_000_000_000);
    let v = guard.evaluate(&r).unwrap();
    // confirmed: loss 0.31 is below the lab threshold 0.4, though above its own 0.01
    assert_eq!(v.status, HypothesisStatus::Confirmed);
    assert_eq!(v.loss_threshold, 400_000);
    assert!(!v.passed);
    assert_eq!(v.warning, "CHERRY-PICK WARNING: raw_accuracy 0.99 but loss 0.31 \u{2014} results may be cherry-picked");
}

#[test]
fn fine_thresholds_and_accuracies_are_kept() {
    let mut guard = LabGuard::new();
    // 0.00004 is a positive threshold below 1
    assert!(matches!(guard.submit(gated("tiny", "Drift shrinks", 40)), GateResult::Pass));
    guard.submit(gated("w", "Drift shrinks", 300_000));
    // 0.95001 is above 0.95
    let v = guard.evaluate(&result("w", 400_000, 300_000, 300_000, 950_010)).unwrap();
    assert!(!v.warning.is_empty());
    let quiet = guard.evaluate(&result("w", 400_000, 300_000, 300_000, 950_000)).unwrap();
    assert!(quiet.warning.is_empty());
}
