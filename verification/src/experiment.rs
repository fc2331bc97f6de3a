use vstd::prelude::*;
use vstd::string::StringExecFns;

use crate::fixed::{achievement_loss_of, render_fixed, spec_achievement_loss, spec_render_fixed};
use crate::hypothesis::HypothesisStatus;

verus! {

/// Millionths to loss units (10^-18): a threshold `t` in millionths is `t * PPM_TO_LOSS`.
pub const PPM_TO_LOSS: i128 = 1_000_000_000_000;

/// A raw accuracy above this (0.95, in millionths) is suspicious when the loss is high.
pub const CHERRY_PICK_ACCURACY: u32 = 950_000;

/// A loss above this (0.3, in loss units) counts as high for the cherry-pick warning.
pub const CHERRY_PICK_LOSS: i128 = 300_000_000_000_000_000;

/// The outcome of running an experiment on a hypothesis; scores are in millionths.
#[derive(Debug, Clone)]
pub struct ExperimentResult {
    pub hypothesis_id: String,
    pub comprehension: u32,
    pub generalization: u32,
    pub retention: u32,
    /// The cherry-pickable metric.
    pub raw_accuracy: u32,
    pub details: String,
}

/// The abstract value of an `ExperimentResult`.
pub struct ExperimentResultView {
    pub hypothesis_id: Seq<char>,
    pub comprehension: int,
    pub generalization: int,
    pub retention: int,
    pub raw_accuracy: int,
    pub details: Seq<char>,
}

impl View for ExperimentResult {
    type V = ExperimentResultView;

    open spec fn view(&self) -> ExperimentResultView {
        ExperimentResultView {
            hypothesis_id: self.hypothesis_id@,
            comprehension: self.comprehension as int,
            generalization: self.generalization as int,
            retention: self.retention as int,
            raw_accuracy: self.raw_accuracy as int,
            details: self.details@,
        }
    }
}

impl ExperimentResultView {
    /// `1 - comprehension * generalization * retention`, in loss units.
    pub open spec fn loss(self) -> int {
        spec_achievement_loss(self.comprehension, self.generalization, self.retention)
    }
}

impl ExperimentResult {
    /// Achievement Loss `1 - comprehension * generalization * retention`, in units of 10^-18.
    pub fn achievement_loss(&self) -> (loss: i128)
        ensures
            loss == self@.loss(),
    {
        achievement_loss_of(self.comprehension, self.generalization, self.retention)
    }

    /// A copy of this result.
    pub fn duplicate(&self) -> (copy: ExperimentResult)
        ensures
            copy@ == self@,
    {
        ExperimentResult {
            hypothesis_id: self.hypothesis_id.clone(),
            comprehension: self.comprehension,
            generalization: self.generalization,
            retention: self.retention,
            raw_accuracy: self.raw_accuracy,
            details: self.details.clone(),
        }
    }
}

/// The lab's judgement on one experiment result.
#[derive(Debug, Clone)]
pub struct Verdict {
    pub hypothesis_id: String,
    pub status: HypothesisStatus,
    /// In loss units (10^-18).
    pub achievement_loss: i128,
    /// The hypothesis's own threshold, in millionths.
    pub threshold: i64,
    /// Whether the loss is within the hypothesis's own threshold.
    pub passed: bool,
    /// The lab's loss threshold the status was judged against, in millionths.
    pub loss_threshold: i64,
    /// In millionths.
    pub raw_accuracy: u32,
    pub warning: String,
    pub details: String,
}

/// The abstract value of a `Verdict`.
pub struct VerdictView {
    pub hypothesis_id: Seq<char>,
    pub status: HypothesisStatus,
    pub achievement_loss: int,
    pub threshold: int,
    pub passed: bool,
    pub loss_threshold: int,
    pub raw_accuracy: int,
    pub warning: Seq<char>,
    pub details: Seq<char>,
}

impl View for Verdict {
    type V = VerdictView;

    open spec fn view(&self) -> VerdictView {
        VerdictView {
            hypothesis_id: self.hypothesis_id@,
            status: self.status,
            achievement_loss: self.achievement_loss as int,
            threshold: self.threshold as int,
            passed: self.passed,
            loss_threshold: self.loss_threshold as int,
            raw_accuracy: self.raw_accuracy as int,
            warning: self.warning@,
            details: self.details@,
        }
    }
}

impl Verdict {
    /// A copy of this verdict.
    pub fn duplicate(&self) -> (copy: Verdict)
        ensures
            copy@ == self@,
    {
        Verdict {
            hypothesis_id: self.hypothesis_id.clone(),
            status: self.status,
            achievement_loss: self.achievement_loss,
            threshold: self.threshold,
            passed: self.passed,
            loss_threshold: self.loss_threshold,
            raw_accuracy: self.raw_accuracy,
            warning: self.warning.clone(),
            details: self.details.clone(),
        }
    }
}

/// A loss passes a threshold (in millionths) when it does not exceed it.
pub open spec fn loss_passes(loss: int, threshold: int) -> bool {
    loss <= threshold * PPM_TO_LOSS
}

/// The status is judged against the lab's Achievement Loss threshold: confirmed when the
/// loss is below it, falsified when above it, inconclusive when exactly on it.
pub open spec fn verdict_status(loss: int, loss_threshold: int) -> HypothesisStatus {
    if loss < loss_threshold * PPM_TO_LOSS {
        HypothesisStatus::Confirmed
    } else if loss > loss_threshold * PPM_TO_LOSS {
        HypothesisStatus::Falsified
    } else {
        HypothesisStatus::Inconclusive
    }
}

/// A high raw accuracy together with a high loss suggests cherry-picked results.
pub open spec fn is_cherry_picked(raw_accuracy: int, loss: int) -> bool {
    raw_accuracy > CHERRY_PICK_ACCURACY && loss > CHERRY_PICK_LOSS
}

/// The warning text: empty unless the result looks cherry-picked.
pub open spec fn warning_text(raw_accuracy: int, loss: int) -> Seq<char> {
    if is_cherry_picked(raw_accuracy, loss) {
        "CHERRY-PICK WARNING: raw_accuracy "@ + spec_render_fixed(raw_accuracy, 6, 2)
            + " but loss "@ + spec_render_fixed(loss, 18, 2)
            + " \u{2014} results may be cherry-picked"@
    } else {
        Seq::empty()
    }
}

/// The details text: loss and threshold to 4 decimals, the three scores to 2.
pub open spec fn details_text(r: ExperimentResultView, threshold: int) -> Seq<char> {
    "loss="@ + spec_render_fixed(r.loss(), 18, 4)
        + " threshold="@ + spec_render_fixed(threshold, 6, 4)
        + " comp="@ + spec_render_fixed(r.comprehension, 6, 2)
        + " gen="@ + spec_render_fixed(r.generalization, 6, 2)
        + " ret="@ + spec_render_fixed(r.retention, 6, 2)
}

/// The verdict on result `r` for a hypothesis with `threshold`, in a lab whose loss
/// threshold is `loss_threshold` (both in millionths).
pub open spec fn verdict_of(r: ExperimentResultView, threshold: int, loss_threshold: int) -> VerdictView {
    VerdictView {
        hypothesis_id: r.hypothesis_id,
        status: verdict_status(r.loss(), loss_threshold),
        achievement_loss: r.loss(),
        threshold: threshold,
        passed: loss_passes(r.loss(), threshold),
        loss_threshold: loss_threshold,
        raw_accuracy: r.raw_accuracy,
        warning: warning_text(r.raw_accuracy, r.loss()),
        details: details_text(r, threshold),
    }
}

/// Judges result `r`: its status against the lab's loss threshold, `passed` against the
/// hypothesis threshold.
pub fn judge(r: &ExperimentResult, threshold: i64, loss_threshold: i64) -> (verdict: Verdict)
    ensures
        verdict@ == verdict_of(r@, threshold as int, loss_threshold as int),
{
    let loss = r.achievement_loss();
    let passed = loss <= (threshold as i128) * PPM_TO_LOSS;
    let bound: i128 = (loss_threshold as i128) * PPM_TO_LOSS;
    let status = if loss < bound {
        HypothesisStatus::Confirmed
    } else if loss > bound {
        HypothesisStatus::Falsified
    } else {
        HypothesisStatus::Inconclusive
    };
    let warning = if r.raw_accuracy > CHERRY_PICK_ACCURACY && loss > CHERRY_PICK_LOSS {
        let mut w = "CHERRY-PICK WARNING: raw_accuracy ".to_owned();
        w.append(render_fixed(r.raw_accuracy as i128, 6, 2).as_str());
        w.append(" but loss ");
        w.append(render_fixed(loss, 18, 2).as_str());
        w.append(" \u{2014} results may be cherry-picked");
        w
    } else {
        String::new()
    };
    let mut details = "loss=".to_owned();
    details.append(render_fixed(loss, 18, 4).as_str());
    details.append(" threshold=");
    details.append(render_fixed(threshold as i128, 6, 4).as_str());
    details.append(" comp=");
    details.append(render_fixed(r.comprehension as i128, 6, 2).as_str());
    details.append(" gen=");
    details.append(render_fixed(r.generalization as i128, 6, 2).as_str());
    details.append(" ret=");
    details.append(render_fixed(r.retention as i128, 6, 2).as_str());
    Verdict {
        hypothesis_id: r.hypothesis_id.clone(),
        status,
        achievement_loss: loss,
        threshold,
        passed,
        loss_threshold,
        raw_accuracy: r.raw_accuracy,
        warning,
        details,
    }
}

} // verus!
