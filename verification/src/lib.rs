//! Lab guard: hypotheses pass four admission gates, and experiment results are
//! scored by Achievement Loss so that cherry-picked metrics cannot confirm a claim.
//!
//! Fractions are held in fixed point: scores and thresholds in millionths
//! (`ONE == 1_000_000` stands for 1.0), losses in units of 10^-18 (`LOSS_ONE` is 1.0).

pub mod experiment;
pub mod fixed;
pub mod guard;
pub mod hypothesis;
pub mod laws;
pub mod model;
pub mod text;
pub mod trace;

pub use experiment::{ExperimentResult, Verdict, PPM_TO_LOSS};
pub use fixed::{achievement_loss_of, render_fixed, LOSS_ONE, ONE};
pub use guard::{contains_absolute_word, GateResult, LabGuard, DEFAULT_LOSS_THRESHOLD};
pub use hypothesis::{Hypothesis, HypothesisStatus};
