use vstd::prelude::*;

use crate::experiment::{judge, ExperimentResult, ExperimentResultView, Verdict, VerdictView};
use crate::fixed::{LOSS_ONE, ONE};
use crate::hypothesis::{Hypothesis, HypothesisStatus, HypothesisView};
use crate::model::{
    absolute_words, after_submit, count_status, evaluation, first_verdict, gate_failures,
    gate_outcomes, has_absolute_word, hypothesis_ids_unique, hypothesis_pos,
    lemma_after_submit_valid, lemma_evaluation_valid, lemma_hypothesis_pos, lemma_result_pos,
    lookup_hypothesis, lookup_result, mean_loss, result_ids_unique, result_pos, select_status,
    submit_response, sum_losses, upsert_hypothesis, upsert_result, was_evaluated, failures_of,
    LabGuardView, max_score_product, verdict_consistent,
};
use crate::text::{chars_of, contains_whole_word, has_whole_word, join_with, texts, to_lowercase, word_char_flags, word_flags};

verus! {

/// The loss threshold (0.4, in millionths) of a new lab.
pub const DEFAULT_LOSS_THRESHOLD: i64 = 400_000;

/// The outcome of a gate, or of a submission.
#[derive(Debug, Clone, PartialEq, Eq)]
pub enum GateResult {
    Pass,
    Fail(String),
}

impl View for GateResult {
    /// `None` for a pass, the reason for a failure.
    type V = Option<Seq<char>>;

    open spec fn view(&self) -> Option<Seq<char>> {
        match self {
            GateResult::Pass => None,
            GateResult::Fail(reason) => Some(reason@),
        }
    }
}

/// The views of a sequence of gate results.
pub open spec fn outcomes_of(gates: Seq<GateResult>) -> Seq<Option<Seq<char>>> {
    gates.map_values(|g: GateResult| g@)
}

/// The `k`-th absolute word.
fn absolute_word(k: usize) -> (word: &'static str)
    requires
        k < 6,
    ensures
        word@ == absolute_words()[k as int],
{
    if k == 0 {
        "always"
    } else if k == 1 {
        "never"
    } else if k == 2 {
        "all"
    } else if k == 3 {
        "none"
    } else if k == 4 {
        "every single"
    } else {
        "impossible to fail"
    }
}

/// Whether an (already lower-cased) claim contains one of the absolute words or phrases
/// as a whole word.
pub fn contains_absolute_word(lowered: &str) -> (found: bool)
    ensures
        found == has_absolute_word(lowered@),
{
    let hay = chars_of(lowered);
    let flags = word_char_flags(&hay);
    let mut k: usize = 0;
    while k < 6
        invariant
            k <= 6,
            hay@ == lowered@,
            flags@ == word_flags(lowered@),
            forall|m: int| 0 <= m < k ==> !#[trigger] has_whole_word(lowered@, word_flags(lowered@), absolute_words()[m]),
        decreases 6 - k,
    {
        let needle = chars_of(absolute_word(k));
        if contains_whole_word(&hay, &flags, &needle) {
            return true;
        }
        k = k + 1;
    }
    false
}

/// The views of stored hypotheses.
pub open spec fn hypothesis_views(v: Seq<Hypothesis>) -> Seq<HypothesisView> {
    v.map_values(|h: Hypothesis| h@)
}

/// The views of stored results.
pub open spec fn result_views(v: Seq<ExperimentResult>) -> Seq<ExperimentResultView> {
    v.map_values(|r: ExperimentResult| r@)
}

/// The views of recorded verdicts.
pub open spec fn verdict_views(v: Seq<Verdict>) -> Seq<VerdictView> {
    v.map_values(|v: Verdict| v@)
}

/// The index of the hypothesis with `id` among `hs`.
fn find_hypothesis(hs: &Vec<Hypothesis>, id: &String) -> (pos: Option<usize>)
    requires
        hypothesis_ids_unique(hypothesis_views(hs@)),
    ensures
        match pos {
            Some(i) => i < hs@.len() && hypothesis_pos(hypothesis_views(hs@), id@) == Some(i as int),
            None => hypothesis_pos(hypothesis_views(hs@), id@) is None,
        },
{
    let ghost views = hypothesis_views(hs@);
    let mut i: usize = 0;
    while i < hs.len()
        invariant
            views == hypothesis_views(hs@),
            hypothesis_ids_unique(views),
            i <= views.len(),
            forall|k: int| 0 <= k < i ==> #[trigger] views[k].id != id@,
        decreases views.len() - i,
    {
        if hs[i].id == *id {
            proof {
                lemma_hypothesis_pos(views, i as int);
            }
            return Some(i);
        }
        i = i + 1;
    }
    None
}

/// The index of the result for hypothesis `id` among `rs`.
fn find_result(rs: &Vec<ExperimentResult>, id: &String) -> (pos: Option<usize>)
    requires
        result_ids_unique(result_views(rs@)),
    ensures
        match pos {
            Some(i) => i < rs@.len() && result_pos(result_views(rs@), id@) == Some(i as int),
            None => result_pos(result_views(rs@), id@) is None,
        },
{
    let ghost views = result_views(rs@);
    let mut i: usize = 0;
    while i < rs.len()
        invariant
            views == result_views(rs@),
            result_ids_unique(views),
            i <= views.len(),
            forall|k: int| 0 <= k < i ==> #[trigger] views[k].hypothesis_id != id@,
        decreases views.len() - i,
    {
        if rs[i].hypothesis_id == *id {
            proof {
                lemma_result_pos(views, i as int);
            }
            return Some(i);
        }
        i = i + 1;
    }
    None
}

/// Stores `h` in `hs`, replacing the hypothesis with the same id.
fn store_hypothesis(hs: &mut Vec<Hypothesis>, h: Hypothesis)
    requires
        hypothesis_ids_unique(hypothesis_views(old(hs)@)),
    ensures
        hypothesis_views(final(hs)@) == upsert_hypothesis(hypothesis_views(old(hs)@), h@),
{
    let ghost h_view = h@;
    match find_hypothesis(hs, &h.id) {
        Some(i) => {
            hs.set(i, h);
        },
        None => {
            hs.push(h);
        },
    }
    assert(hypothesis_views(hs@) =~= upsert_hypothesis(hypothesis_views(old(hs)@), h_view));
}

/// Stores `r` in `rs`, replacing the result for the same hypothesis.
fn store_result(rs: &mut Vec<ExperimentResult>, r: ExperimentResult)
    requires
        result_ids_unique(result_views(old(rs)@)),
    ensures
        result_views(final(rs)@) == upsert_result(result_views(old(rs)@), r@),
{
    let ghost r_view = r@;
    match find_result(rs, &r.hypothesis_id) {
        Some(i) => {
            rs.set(i, r);
        },
        None => {
            rs.push(r);
        },
    }
    assert(result_views(rs@) =~= upsert_result(result_views(old(rs)@), r_view));
}

/// The lab: stored hypotheses, their latest results, and every verdict given. Every
/// value of this type satisfies the lab's invariant (`LabGuardView::valid`).
pub struct LabGuard {
    hypotheses: Vec<Hypothesis>,
    results: Vec<ExperimentResult>,
    verdicts: Vec<Verdict>,
    loss_threshold: i64,
}

impl View for LabGuard {
    type V = LabGuardView;

    closed spec fn view(&self) -> LabGuardView {
        LabGuardView {
            hypotheses: hypothesis_views(self.hypotheses@),
            results: result_views(self.results@),
            verdicts: verdict_views(self.verdicts@),
            loss_threshold: self.loss_threshold as int,
        }
    }
}

impl LabGuard {
    /// The lab's invariant, kept by every operation.
    #[verifier::type_invariant]
    spec fn lab_invariant(&self) -> bool {
        self@.valid()
    }

    /// The lab's invariant holds (every `LabGuard` satisfies it).
    pub open spec fn well_formed(&self) -> bool {
        self@.valid()
    }

    /// An empty lab with the default loss threshold.
    pub fn new() -> (guard: Self)
        ensures
            guard.well_formed(),
            guard@ == (LabGuardView {
                hypotheses: Seq::empty(),
                results: Seq::empty(),
                verdicts: Seq::empty(),
                loss_threshold: DEFAULT_LOSS_THRESHOLD as int,
            }),
    {
        let hypotheses: Vec<Hypothesis> = Vec::new();
        let results: Vec<ExperimentResult> = Vec::new();
        let verdicts: Vec<Verdict> = Vec::new();
        assert(hypothesis_views(hypotheses@) =~= Seq::empty());
        assert(result_views(results@) =~= Seq::empty());
        assert(verdict_views(verdicts@) =~= Seq::empty());
        LabGuard { hypotheses, results, verdicts, loss_threshold: DEFAULT_LOSS_THRESHOLD }
    }

    /// The same lab with its loss threshold (millionths) replaced.
    pub fn with_loss_threshold(self, threshold: i64) -> (guard: Self)
        ensures
            guard.well_formed(),
            guard@ == (LabGuardView { loss_threshold: threshold as int, ..self@ }),
    {
        proof {
            use_type_invariant(&self);
        }
        let LabGuard { hypotheses, results, verdicts, loss_threshold: _ } = self;
        LabGuard { hypotheses, results, verdicts, loss_threshold: threshold }
    }

    /// Whether some verdict was given for hypothesis `id`.
    fn has_verdict_for(&self, id: &String) -> (found: bool)
        ensures
            found == was_evaluated(self@.verdicts, id@),
    {
        let ghost vs = self@.verdicts;
        let mut i: usize = 0;
        while i < self.verdicts.len()
            invariant
                vs == self@.verdicts,
                i <= vs.len(),
                forall|k: int| 0 <= k < i ==> #[trigger] vs[k].hypothesis_id != id@,
            decreases vs.len() - i,
        {
            if self.verdicts[i].hypothesis_id == *id {
                assert(vs[i as int].hypothesis_id == id@);
                return true;
            }
            i = i + 1;
        }
        false
    }

    /// The four admission gates, in order.
    fn check_gates(&self, hyp: &Hypothesis) -> (gates: Vec<GateResult>)
        ensures
            outcomes_of(gates@) == gate_outcomes(self@, hyp@),
    {
        proof {
            use_type_invariant(self);
        }
        let mut gates: Vec<GateResult> = Vec::new();

        // Well-formed: claim, conditions, threshold strictly between 0 and 1.
        if hyp.claim.as_str().is_empty() {
            gates.push(GateResult::Fail("Missing claim".to_owned()));
        } else if hyp.conditions.len() == 0 {
            gates.push(GateResult::Fail("Missing conditions".to_owned()));
        } else if hyp.threshold <= 0 || hyp.threshold >= ONE {
            gates.push(GateResult::Fail("Threshold must be 0.0 < t < 1.0".to_owned()));
        } else {
            gates.push(GateResult::Pass);
        }

        // Falsifiable: no absolute words.
        let lowered = to_lowercase(hyp.claim.as_str());
        if contains_absolute_word(lowered.as_str()) {
            gates.push(GateResult::Fail(
                "Contains absolute word: check for [\"always\", \"never\", \"all\", \"none\", \"every single\", \"impossible to fail\"]".to_owned(),
            ));
        } else {
            gates.push(GateResult::Pass);
        }

        // Novel: not already submitted or tested.
        if find_hypothesis(&self.hypotheses, &hyp.id).is_some() || self.has_verdict_for(&hyp.id) {
            gates.push(GateResult::Fail("Already tested".to_owned()));
        } else {
            gates.push(GateResult::Pass);
        }

        // Bounded: positive threshold.
        if hyp.threshold <= 0 {
            gates.push(GateResult::Fail("Threshold must be positive".to_owned()));
        } else {
            gates.push(GateResult::Pass);
        }

        assert(outcomes_of(gates@) =~= gate_outcomes(self@, hyp@));
        gates
    }

    /// Takes the lab's contents out, leaving an empty lab in its place.
    fn take_contents(&mut self) -> (taken: LabGuard)
        ensures
            taken@ == old(self)@,
            final(self)@.valid(),
    {
        let mut taken = LabGuard::new();
        std::mem::swap(&mut taken, self);
        taken
    }
}

impl LabGuard {
    /// Runs the four gates on `hypothesis` and stores it: gated with no violations when
    /// every gate passes, pending with the failure reasons otherwise. A hypothesis with the
    /// id of a stored one replaces it. Answers `Pass`, or `Fail` with the reasons joined
    /// by `"; "`.
    pub fn submit(&mut self, hypothesis: Hypothesis) -> (outcome: GateResult)
        ensures
            final(self).well_formed(),
            outcome@ == submit_response(old(self)@, hypothesis@),
            final(self)@ == after_submit(old(self)@, hypothesis@),
    {
        proof {
            use_type_invariant(&*self);
        }
        let ghost g = self@;
        let ghost h = hypothesis@;
        let gates = self.check_gates(&hypothesis);
        let ghost outs = outcomes_of(gates@);
        let mut failures: Vec<String> = Vec::new();
        let mut i: usize = 0;
        while i < gates.len()
            invariant
                outs == outcomes_of(gates@),
                i <= gates@.len(),
                texts(failures@) == failures_of(outs.take(i as int)),
            decreases gates@.len() - i,
        {
            assert(outs.take(i + 1).drop_last() =~= outs.take(i as int));
            match &gates[i] {
                GateResult::Fail(reason) => {
                    failures.push(reason.clone());
                    assert(texts(failures@) =~= failures_of(outs.take(i as int)).push(reason@));
                },
                GateResult::Pass => {},
            }
            i = i + 1;
        }
        assert(outs.take(gates@.len() as int) =~= outs);
        proof {
            lemma_after_submit_valid(g, h);
        }
        let mut hypothesis = hypothesis;
        let outcome = if failures.len() == 0 {
            hypothesis.status = HypothesisStatus::Gated;
            hypothesis.gate_violations = Vec::new();
            assert(texts(hypothesis.gate_violations@) =~= gate_failures(g, h));
            GateResult::Pass
        } else {
            let joined = join_with(&failures, "; ");
            hypothesis.gate_violations = failures;
            hypothesis.status = HypothesisStatus::Pending;
            GateResult::Fail(joined)
        };
        let LabGuard { mut hypotheses, results, verdicts, loss_threshold } = self.take_contents();
        store_hypothesis(&mut hypotheses, hypothesis);
        *self = LabGuard { hypotheses, results, verdicts, loss_threshold };
        outcome
    }

    /// Judges `result` against the stored hypothesis with its id. Answers `None`, and
    /// changes nothing, when there is none; otherwise the hypothesis takes the verdict's
    /// status, the result is stored (replacing an earlier one), the verdict is recorded,
    /// and the verdict is returned.
    pub fn evaluate(&mut self, result: &ExperimentResult) -> (verdict: Option<Verdict>)
        ensures
            final(self).well_formed(),
            match evaluation(old(self)@, result@) {
                None => verdict is None && final(self)@ == old(self)@,
                Some((v, g2)) => verdict matches Some(x) && x@ == v && final(self)@ == g2,
            },
    {
        proof {
            use_type_invariant(&*self);
        }
        let ghost g = self@;
        proof {
            lemma_evaluation_valid(g, result@);
        }
        match find_hypothesis(&self.hypotheses, &result.hypothesis_id) {
            None => None,
            Some(i) => {
                let threshold = self.hypotheses[i].threshold;
                let verdict = judge(result, threshold, self.loss_threshold);
                let LabGuard { mut hypotheses, mut results, mut verdicts, loss_threshold } = self.take_contents();
                hypotheses[i].status = verdict.status;
                assert(hypothesis_views(hypotheses@) =~= g.hypotheses.update(i as int, HypothesisView { status: verdict@.status, ..g.hypotheses[i as int] }));
                store_result(&mut results, result.duplicate());
                verdicts.push(verdict.duplicate());
                assert(verdict_views(verdicts@) =~= g.verdicts.push(verdict@));
                *self = LabGuard { hypotheses, results, verdicts, loss_threshold };
                Some(verdict)
            },
        }
    }

    // ── Queries ──

    /// The stored hypothesis with `id`.
    pub fn hypothesis(&self, id: &str) -> (found: Option<&Hypothesis>)
        ensures
            match found {
                Some(h) => lookup_hypothesis(self@.hypotheses, id@) == Some(h@),
                None => lookup_hypothesis(self@.hypotheses, id@) is None,
            },
    {
        proof {
            use_type_invariant(self);
        }
        let key = id.to_owned();
        match find_hypothesis(&self.hypotheses, &key) {
            Some(i) => Some(&self.hypotheses[i]),
            None => None,
        }
    }

    /// The stored result for hypothesis `id`.
    pub fn result(&self, id: &str) -> (found: Option<&ExperimentResult>)
        ensures
            match found {
                Some(r) => lookup_result(self@.results, id@) == Some(r@),
                None => lookup_result(self@.results, id@) is None,
            },
    {
        proof {
            use_type_invariant(self);
        }
        let key = id.to_owned();
        match find_result(&self.results, &key) {
            Some(i) => Some(&self.results[i]),
            None => None,
        }
    }

    /// The earliest verdict given for hypothesis `id`.
    pub fn verdict(&self, id: &str) -> (found: Option<&Verdict>)
        ensures
            match found {
                Some(v) => first_verdict(self@.verdicts, id@) == Some(v@),
                None => first_verdict(self@.verdicts, id@) is None,
            },
    {
        let key = id.to_owned();
        let ghost vs = self@.verdicts;
        assert(vs.subrange(0, vs.len() as int) =~= vs);
        let mut i: usize = 0;
        while i < self.verdicts.len()
            invariant
                vs == self@.verdicts,
                key@ == id@,
                i <= vs.len(),
                first_verdict(vs, id@) == first_verdict(vs.subrange(i as int, vs.len() as int), id@),
            decreases vs.len() - i,
        {
            let ghost rest = vs.subrange(i as int, vs.len() as int);
            assert(rest.drop_first() =~= vs.subrange(i + 1, vs.len() as int));
            if self.verdicts[i].hypothesis_id == key {
                return Some(&self.verdicts[i]);
            }
            i = i + 1;
        }
        None
    }

    /// How many verdicts have `status`.
    fn count_with_status(&self, status: HypothesisStatus) -> (n: usize)
        ensures
            n == count_status(self@.verdicts, status),
    {
        let ghost vs = self@.verdicts;
        let mut n: usize = 0;
        let mut i: usize = 0;
        while i < self.verdicts.len()
            invariant
                vs == self@.verdicts,
                i <= vs.len(),
                n <= i,
                n == count_status(vs.take(i as int), status),
            decreases vs.len() - i,
        {
            assert(vs.take(i + 1).drop_last() =~= vs.take(i as int));
            if self.verdicts[i].status == status {
                n = n + 1;
            }
            i = i + 1;
        }
        assert(vs.take(vs.len() as int) =~= vs);
        n
    }

    /// How many verdicts confirmed their hypothesis.
    pub fn confirmed_count(&self) -> (n: usize)
        ensures
            n == count_status(self@.verdicts, HypothesisStatus::Confirmed),
    {
        self.count_with_status(HypothesisStatus::Confirmed)
    }

    /// How many verdicts falsified their hypothesis.
    pub fn falsified_count(&self) -> (n: usize)
        ensures
            n == count_status(self@.verdicts, HypothesisStatus::Falsified),
    {
        self.count_with_status(HypothesisStatus::Falsified)
    }

    /// How many verdicts were given.
    pub fn total_evaluated(&self) -> (n: usize)
        ensures
            n == self@.verdicts.len(),
    {
        self.verdicts.len()
    }

    /// The mean loss of all verdicts (loss units, rounded down); zero when there are none.
    pub fn average_loss(&self) -> (mean: i128)
        ensures
            mean == mean_loss(self@.verdicts),
    {
        proof {
            use_type_invariant(self);
        }
        let ghost vs = self@.verdicts;
        let n: usize = self.verdicts.len();
        if n == 0 {
            return 0;
        }
        // Every loss lies in [lo, LOSS_ONE]; the sum of the shifted losses `loss - lo`
        // is kept as `n * q + r` with `r < n`, so nothing overflows however many verdicts.
        let lo: i128 = LOSS_ONE - 79_228_162_458_924_105_385_300_197_375i128;
        let nn: u128 = n as u128;
        let ghost width: int = max_score_product();
        assert(lo == LOSS_ONE - width);
        assert(width == 79_228_162_458_924_105_385_300_197_375int);
        let mut q: u128 = 0;
        let mut r: u128 = 0;
        let mut i: usize = 0;
        while i < n
            invariant
                vs == self@.verdicts,
                self@.valid(),
                n == vs.len(),
                nn == n,
                n > 0,
                width == 79_228_162_458_924_105_385_300_197_375int,
                lo == LOSS_ONE - width,
                i <= n,
                0 <= sum_losses(vs.take(i as int)) - i * lo <= i * width,
                sum_losses(vs.take(i as int)) - i * lo == nn * q + r,
                r < nn,
                q <= width,
            decreases n - i,
        {
            assert(vs.take(i + 1).drop_last() =~= vs.take(i as int));
            assert(verdict_consistent(vs[i as int]));
            let loss: i128 = self.verdicts[i].achievement_loss;
            let shifted: u128 = (loss - lo) as u128;
            let dq: u128 = shifted / nn;
            let dr: u128 = shifted % nn;
            proof {
                vstd::arithmetic::div_mod::lemma_fundamental_div_mod(shifted as int, nn as int);
                vstd::arithmetic::div_mod::lemma_mod_pos_bound(shifted as int, nn as int);
                assert(dq <= width) by (nonlinear_arith)
                    requires shifted == nn * dq + dr, 0 <= dr, shifted <= width, nn >= 1;
            }
            let total_r: u128 = r + dr;
            let ghost old_q = q;
            let ghost old_r = r;
            if total_r >= nn {
                r = total_r - nn;
                q = q + dq + 1;
            } else {
                r = total_r;
                q = q + dq;
            }
            proof {
                let ip = (i + 1) as int;
                assert(sum_losses(vs.take(ip)) == sum_losses(vs.take(i as int)) + loss);
                assert(ip * lo == i * lo + lo && ip * width == i * width + width) by (nonlinear_arith)
                    requires ip == i + 1;
                assert(0 <= loss - lo <= width);
                assert(sum_losses(vs.take(ip)) - ip * lo == nn * q + r) by (nonlinear_arith)
                    requires
                        sum_losses(vs.take(i as int)) - i * lo == nn * old_q + old_r,
                        sum_losses(vs.take(ip)) == sum_losses(vs.take(i as int)) + loss,
                        shifted == loss - lo,
                        shifted == nn * dq + dr,
                        total_r == old_r + dr,
                        (total_r >= nn && r == total_r - nn && q == old_q + dq + 1)
                            || (total_r < nn && r == total_r && q == old_q + dq),
                        ip == i + 1;
                assert(q <= width) by (nonlinear_arith)
                    requires
                        sum_losses(vs.take(ip)) - ip * lo == nn * q + r,
                        sum_losses(vs.take(ip)) - ip * lo <= ip * width,
                        0 <= r,
                        ip <= nn,
                        nn >= 1,
                        width >= 0;
            }
            i = i + 1;
        }
        assert(vs.take(n as int) =~= vs);
        proof {
            let s = sum_losses(vs);
            assert(s == (q + lo) * (n as int) + r) by (nonlinear_arith)
                requires s - n * lo == nn * q + r, nn == n;
            vstd::arithmetic::div_mod::lemma_fundamental_div_mod_converse(s, n as int, q + lo, r as int);
        }
        (q as i128) + lo
    }

    /// The stored hypotheses with `status`, in stored order.
    pub fn by_status(&self, status: HypothesisStatus) -> (found: Vec<&Hypothesis>)
        ensures
            found@.len() == select_status(self@.hypotheses, status).len(),
            forall|k: int| 0 <= k < found@.len() ==> #[trigger] found@[k]@ == select_status(self@.hypotheses, status)[k],
    {
        let ghost hs = self@.hypotheses;
        let mut found: Vec<&Hypothesis> = Vec::new();
        let mut i: usize = 0;
        while i < self.hypotheses.len()
            invariant
                hs == self@.hypotheses,
                i <= hs.len(),
                found@.len() == select_status(hs.take(i as int), status).len(),
                forall|k: int| 0 <= k < found@.len() ==> #[trigger] found@[k]@ == select_status(hs.take(i as int), status)[k],
            decreases hs.len() - i,
        {
            assert(hs.take(i + 1).drop_last() =~= hs.take(i as int));
            if self.hypotheses[i].status == status {
                found.push(&self.hypotheses[i]);
            }
            i = i + 1;
        }
        assert(hs.take(hs.len() as int) =~= hs);
        found
    }
}

impl Default for LabGuard {
    fn default() -> (guard: Self)
        ensures
            guard.well_formed(),
            guard@ == (LabGuardView {
                hypotheses: Seq::empty(),
                results: Seq::empty(),
                verdicts: Seq::empty(),
                loss_threshold: DEFAULT_LOSS_THRESHOLD as int,
            }),
    {
        Self::new()
    }
}

} // verus!
