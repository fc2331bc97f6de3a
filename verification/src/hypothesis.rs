use vstd::prelude::*;

use crate::text::texts;

verus! {

/// Where a hypothesis stands in the lab.
#[derive(Debug, Clone, Copy, PartialEq, Eq, Structural)]
pub enum HypothesisStatus {
    Pending,
    Gated,
    Testing,
    Confirmed,
    Falsified,
    Inconclusive,
}

/// A claim submitted to the lab, with the largest Achievement Loss it accepts.
#[derive(Debug, Clone)]
pub struct Hypothesis {
    pub id: String,
    pub claim: String,
    pub conditions: Vec<String>,
    /// Largest acceptable Achievement Loss, in millionths (`ONE` is 1.0).
    pub threshold: i64,
    pub submitted_by: String,
    pub status: HypothesisStatus,
    pub gate_violations: Vec<String>,
}

/// The abstract value of a `Hypothesis`: texts as character sequences.
pub struct HypothesisView {
    pub id: Seq<char>,
    pub claim: Seq<char>,
    pub conditions: Seq<Seq<char>>,
    pub threshold: int,
    pub submitted_by: Seq<char>,
    pub status: HypothesisStatus,
    pub gate_violations: Seq<Seq<char>>,
}

impl View for Hypothesis {
    type V = HypothesisView;

    open spec fn view(&self) -> HypothesisView {
        HypothesisView {
            id: self.id@,
            claim: self.claim@,
            conditions: texts(self.conditions@),
            threshold: self.threshold as int,
            submitted_by: self.submitted_by@,
            status: self.status,
            gate_violations: texts(self.gate_violations@),
        }
    }
}

impl Hypothesis {
    /// A pending hypothesis with no conditions, no submitter and no violations.
    pub fn new(id: &str, claim: &str, threshold: i64) -> (hypothesis: Self)
        ensures
            hypothesis@ == (HypothesisView {
                id: id@,
                claim: claim@,
                conditions: Seq::empty(),
                threshold: threshold as int,
                submitted_by: Seq::empty(),
                status: HypothesisStatus::Pending,
                gate_violations: Seq::empty(),
            }),
    {
        let hypothesis = Hypothesis {
            id: id.to_owned(),
            claim: claim.to_owned(),
            conditions: Vec::new(),
            threshold,
            submitted_by: String::new(),
            status: HypothesisStatus::Pending,
            gate_violations: Vec::new(),
        };
        assert(texts(hypothesis.conditions@) =~= Seq::empty());
        assert(texts(hypothesis.gate_violations@) =~= Seq::empty());
        hypothesis
    }

    /// The same hypothesis with its conditions replaced.
    pub fn with_conditions(self, conditions: Vec<String>) -> (hypothesis: Self)
        ensures
            hypothesis@ == (HypothesisView { conditions: texts(conditions@), ..self@ }),
    {
        let mut hypothesis = self;
        hypothesis.conditions = conditions;
        hypothesis
    }

    /// The same hypothesis with its submitter replaced.
    pub fn with_submitter(self, name: &str) -> (hypothesis: Self)
        ensures
            hypothesis@ == (HypothesisView { submitted_by: name@, ..self@ }),
    {
        let mut hypothesis = self;
        hypothesis.submitted_by = name.to_owned();
        hypothesis
    }
}

} // verus!
