use vstd::prelude::*;

use crate::experiment::{ExperimentResultView, VerdictView, verdict_of};
use crate::fixed::{LOSS_ONE, ONE};
use crate::hypothesis::{HypothesisStatus, HypothesisView};
use crate::text::{has_whole_word, lowercase_of, word_flags};

verus! {

/// The abstract state of a `LabGuard`: stored hypotheses and results (at most one per
/// hypothesis id, in first-stored order), verdicts in evaluation order, and the loss
/// threshold (millionths) that decides each verdict's status.
pub struct LabGuardView {
    pub hypotheses: Seq<HypothesisView>,
    pub results: Seq<ExperimentResultView>,
    pub verdicts: Seq<VerdictView>,
    pub loss_threshold: int,
}

/// The largest product of three scores held in a `u32`.
pub open spec fn max_score_product() -> int {
    crate::fixed::max_score() * crate::fixed::max_score() * crate::fixed::max_score()
}

// ── Lookup ──────────────────────────────────────────────

/// Whether some stored hypothesis has `id`.
pub open spec fn has_hypothesis(hs: Seq<HypothesisView>, id: Seq<char>) -> bool {
    exists|j: int| 0 <= j < hs.len() && #[trigger] hs[j].id == id
}

/// The position of the hypothesis with `id`, if any.
pub open spec fn hypothesis_pos(hs: Seq<HypothesisView>, id: Seq<char>) -> Option<int> {
    if has_hypothesis(hs, id) {
        Some(choose|j: int| 0 <= j < hs.len() && #[trigger] hs[j].id == id)
    } else {
        None
    }
}

/// The stored hypothesis with `id`, if any.
pub open spec fn lookup_hypothesis(hs: Seq<HypothesisView>, id: Seq<char>) -> Option<HypothesisView> {
    match hypothesis_pos(hs, id) {
        Some(j) => Some(hs[j]),
        None => None,
    }
}

/// No two stored hypotheses share an id.
pub open spec fn hypothesis_ids_unique(hs: Seq<HypothesisView>) -> bool {
    forall|i: int, j: int| 0 <= i < hs.len() && 0 <= j < hs.len() && i != j ==> #[trigger] hs[i].id != #[trigger] hs[j].id
}

/// Stores `h`: it replaces the hypothesis with the same id, or is appended.
pub open spec fn upsert_hypothesis(hs: Seq<HypothesisView>, h: HypothesisView) -> Seq<HypothesisView> {
    match hypothesis_pos(hs, h.id) {
        Some(j) => hs.update(j, h),
        None => hs.push(h),
    }
}

/// Whether some stored result is for hypothesis `id`.
pub open spec fn has_result(rs: Seq<ExperimentResultView>, id: Seq<char>) -> bool {
    exists|j: int| 0 <= j < rs.len() && #[trigger] rs[j].hypothesis_id == id
}

/// The position of the result for hypothesis `id`, if any.
pub open spec fn result_pos(rs: Seq<ExperimentResultView>, id: Seq<char>) -> Option<int> {
    if has_result(rs, id) {
        Some(choose|j: int| 0 <= j < rs.len() && #[trigger] rs[j].hypothesis_id == id)
    } else {
        None
    }
}

/// The stored result for hypothesis `id`, if any.
pub open spec fn lookup_result(rs: Seq<ExperimentResultView>, id: Seq<char>) -> Option<ExperimentResultView> {
    match result_pos(rs, id) {
        Some(j) => Some(rs[j]),
        None => None,
    }
}

/// No two stored results are for the same hypothesis.
pub open spec fn result_ids_unique(rs: Seq<ExperimentResultView>) -> bool {
    forall|i: int, j: int| 0 <= i < rs.len() && 0 <= j < rs.len() && i != j ==> #[trigger] rs[i].hypothesis_id != #[trigger] rs[j].hypothesis_id
}

/// Stores `r`: it replaces the result for the same hypothesis, or is appended.
pub open spec fn upsert_result(rs: Seq<ExperimentResultView>, r: ExperimentResultView) -> Seq<ExperimentResultView> {
    match result_pos(rs, r.hypothesis_id) {
        Some(j) => rs.update(j, r),
        None => rs.push(r),
    }
}

/// Whether some verdict was given for hypothesis `id`.
pub open spec fn was_evaluated(vs: Seq<VerdictView>, id: Seq<char>) -> bool {
    exists|j: int| 0 <= j < vs.len() && #[trigger] vs[j].hypothesis_id == id
}

/// The earliest verdict given for hypothesis `id`.
pub open spec fn first_verdict(vs: Seq<VerdictView>, id: Seq<char>) -> Option<VerdictView>
    decreases vs.len(),
{
    if vs.len() == 0 {
        None
    } else if vs[0].hypothesis_id == id {
        Some(vs[0])
    } else {
        first_verdict(vs.drop_first(), id)
    }
}

/// The most recent verdict given for hypothesis `id`.
pub open spec fn latest_verdict(vs: Seq<VerdictView>, id: Seq<char>) -> Option<VerdictView>
    decreases vs.len(),
{
    if vs.len() == 0 {
        None
    } else if vs.last().hypothesis_id == id {
        Some(vs.last())
    } else {
        latest_verdict(vs.drop_last(), id)
    }
}

/// How many verdicts have `status`.
pub open spec fn count_status(vs: Seq<VerdictView>, status: HypothesisStatus) -> nat
    decreases vs.len(),
{
    if vs.len() == 0 {
        0
    } else {
        count_status(vs.drop_last(), status) + if vs.last().status == status { 1nat } else { 0nat }
    }
}

/// The sum of the verdicts' losses.
pub open spec fn sum_losses(vs: Seq<VerdictView>) -> int
    decreases vs.len(),
{
    if vs.len() == 0 {
        0
    } else {
        sum_losses(vs.drop_last()) + vs.last().achievement_loss
    }
}

/// The mean loss of the verdicts, rounded down; zero when there are none.
pub open spec fn mean_loss(vs: Seq<VerdictView>) -> int {
    if vs.len() == 0 {
        0
    } else {
        sum_losses(vs) / (vs.len() as int)
    }
}

/// The stored hypotheses with `status`, in stored order.
pub open spec fn select_status(hs: Seq<HypothesisView>, status: HypothesisStatus) -> Seq<HypothesisView>
    decreases hs.len(),
{
    if hs.len() == 0 {
        Seq::empty()
    } else if hs.last().status == status {
        select_status(hs.drop_last(), status).push(hs.last())
    } else {
        select_status(hs.drop_last(), status)
    }
}

// ── Gates ───────────────────────────────────────────────

/// The words whose presence makes a claim unfalsifiable.
pub open spec fn absolute_words() -> Seq<Seq<char>> {
    seq!["always"@, "never"@, "all"@, "none"@, "every single"@, "impossible to fail"@]
}

/// Whether `text` contains one of the absolute words (or phrases) as a whole word:
/// not preceded or followed by a letter or digit.
pub open spec fn has_absolute_word(text: Seq<char>) -> bool {
    exists|k: int| 0 <= k < absolute_words().len() && #[trigger] has_whole_word(text, word_flags(text), absolute_words()[k])
}

/// The reason given when a claim contains an absolute word.
pub open spec fn absolute_word_reason() -> Seq<char> {
    "Contains absolute word: check for [\"always\", \"never\", \"all\", \"none\", \"every single\", \"impossible to fail\"]"@
}

/// Gate 1: a claim, conditions and a threshold strictly between 0 and 1.
pub open spec fn well_formed_gate(h: HypothesisView) -> Option<Seq<char>> {
    if h.claim.len() == 0 {
        Some("Missing claim"@)
    } else if h.conditions.len() == 0 {
        Some("Missing conditions"@)
    } else if h.threshold <= 0 || h.threshold >= ONE {
        Some("Threshold must be 0.0 < t < 1.0"@)
    } else {
        None
    }
}

/// Gate 2: the lower-cased claim holds no absolute word.
pub open spec fn falsifiable_gate(h: HypothesisView) -> Option<Seq<char>> {
    if has_absolute_word(lowercase_of(h.claim)) {
        Some(absolute_word_reason())
    } else {
        None
    }
}

/// Whether a hypothesis with `id` is stored or has been evaluated.
pub open spec fn already_tested(g: LabGuardView, id: Seq<char>) -> bool {
    has_hypothesis(g.hypotheses, id) || was_evaluated(g.verdicts, id)
}

/// Gate 3: the id is neither stored nor evaluated.
pub open spec fn novel_gate(g: LabGuardView, h: HypothesisView) -> Option<Seq<char>> {
    if already_tested(g, h.id) {
        Some("Already tested"@)
    } else {
        None
    }
}

/// Gate 4: the threshold is positive.
pub open spec fn bounded_gate(h: HypothesisView) -> Option<Seq<char>> {
    if h.threshold <= 0 {
        Some("Threshold must be positive"@)
    } else {
        None
    }
}

/// The four gates in order; `None` is a pass, `Some(reason)` a failure.
pub open spec fn gate_outcomes(g: LabGuardView, h: HypothesisView) -> Seq<Option<Seq<char>>> {
    seq![well_formed_gate(h), falsifiable_gate(h), novel_gate(g, h), bounded_gate(h)]
}

/// The reasons of the failed outcomes, in order.
pub open spec fn failures_of(outcomes: Seq<Option<Seq<char>>>) -> Seq<Seq<char>>
    decreases outcomes.len(),
{
    if outcomes.len() == 0 {
        Seq::empty()
    } else {
        match outcomes.last() {
            Some(reason) => failures_of(outcomes.drop_last()).push(reason),
            None => failures_of(outcomes.drop_last()),
        }
    }
}

/// The reasons of the gates that `h` fails in `g`.
pub open spec fn gate_failures(g: LabGuardView, h: HypothesisView) -> Seq<Seq<char>> {
    failures_of(gate_outcomes(g, h))
}

// ── Operations ──────────────────────────────────────────

/// The hypothesis as stored by a submission: gated when it passes every gate,
/// pending otherwise, with the failure reasons as its violations.
pub open spec fn submitted(g: LabGuardView, h: HypothesisView) -> HypothesisView {
    let failures = gate_failures(g, h);
    HypothesisView {
        status: if failures.len() == 0 { HypothesisStatus::Gated } else { HypothesisStatus::Pending },
        gate_violations: failures,
        ..h
    }
}

/// The state after submitting `h`: the submitted hypothesis is stored, nothing else changes.
pub open spec fn after_submit(g: LabGuardView, h: HypothesisView) -> LabGuardView {
    LabGuardView { hypotheses: upsert_hypothesis(g.hypotheses, submitted(g, h)), ..g }
}

/// The answer to a submission: `None` (pass) or the failure reasons joined with `"; "`.
pub open spec fn submit_response(g: LabGuardView, h: HypothesisView) -> Option<Seq<char>> {
    let failures = gate_failures(g, h);
    if failures.len() == 0 {
        None
    } else {
        Some(crate::text::join_seqs(failures, "; "@))
    }
}

/// Evaluating result `r`: `None` when no hypothesis has its id; otherwise the verdict
/// and the state in which the hypothesis takes the verdict's status, the result is
/// stored and the verdict is appended.
pub open spec fn evaluation(g: LabGuardView, r: ExperimentResultView) -> Option<(VerdictView, LabGuardView)> {
    match hypothesis_pos(g.hypotheses, r.hypothesis_id) {
        None => None,
        Some(j) => {
            let h = g.hypotheses[j];
            let v = verdict_of(r, h.threshold, g.loss_threshold);
            Some((v, LabGuardView {
                hypotheses: g.hypotheses.update(j, HypothesisView { status: v.status, ..h }),
                results: upsert_result(g.results, r),
                verdicts: g.verdicts.push(v),
                loss_threshold: g.loss_threshold,
            }))
        }
    }
}

// ── Invariant ───────────────────────────────────────────

/// A status that only a verdict gives.
pub open spec fn is_verdict_status(s: HypothesisStatus) -> bool {
    s == HypothesisStatus::Confirmed || s == HypothesisStatus::Falsified || s == HypothesisStatus::Inconclusive
}

/// A verdict is consistent: its loss comes from `u32` scores, it passed exactly when
/// the loss is within the hypothesis threshold, and its status is the one the lab's
/// loss threshold it records gives to the loss.
pub open spec fn verdict_consistent(v: VerdictView) -> bool {
    &&& LOSS_ONE - max_score_product() <= v.achievement_loss <= LOSS_ONE
    &&& v.passed == crate::experiment::loss_passes(v.achievement_loss, v.threshold)
    &&& v.status == crate::experiment::verdict_status(v.achievement_loss, v.loss_threshold)
}

/// A stored hypothesis is never left in testing, and a verdict status on it is the
/// status of its latest verdict, given at its current threshold.
pub open spec fn status_backed(vs: Seq<VerdictView>, h: HypothesisView) -> bool {
    &&& h.status != HypothesisStatus::Testing
    &&& is_verdict_status(h.status) ==> match latest_verdict(vs, h.id) {
        Some(v) => v.status == h.status && v.threshold == h.threshold,
        None => false,
    }
}

impl LabGuardView {
    /// What every reachable state of the lab satisfies.
    pub open spec fn valid(self) -> bool {
        &&& hypothesis_ids_unique(self.hypotheses)
        &&& result_ids_unique(self.results)
        &&& forall|i: int| 0 <= i < self.results.len() ==> has_hypothesis(self.hypotheses, #[trigger] self.results[i].hypothesis_id)
        &&& forall|i: int| 0 <= i < self.results.len() ==> was_evaluated(self.verdicts, #[trigger] self.results[i].hypothesis_id)
        &&& forall|i: int| 0 <= i < self.verdicts.len() ==> verdict_consistent(#[trigger] self.verdicts[i])
        &&& forall|i: int| 0 <= i < self.verdicts.len() ==> has_hypothesis(self.hypotheses, #[trigger] self.verdicts[i].hypothesis_id)
        &&& forall|i: int| 0 <= i < self.hypotheses.len() ==> status_backed(self.verdicts, #[trigger] self.hypotheses[i])
    }
}

// ── Lemmas ──────────────────────────────────────────────

/// With unique ids, the position of an id is the one index holding it.
pub proof fn lemma_hypothesis_pos(hs: Seq<HypothesisView>, j: int)
    requires
        hypothesis_ids_unique(hs),
        0 <= j < hs.len(),
    ensures
        hypothesis_pos(hs, hs[j].id) == Some(j),
{
    assert(has_hypothesis(hs, hs[j].id));
}

/// With unique ids, the position of a result's hypothesis id is the one index holding it.
pub proof fn lemma_result_pos(rs: Seq<ExperimentResultView>, j: int)
    requires
        result_ids_unique(rs),
        0 <= j < rs.len(),
    ensures
        result_pos(rs, rs[j].hypothesis_id) == Some(j),
{
    assert(has_result(rs, rs[j].hypothesis_id));
}

/// Storing a hypothesis keeps ids unique, adds its id, keeps every other id, and
/// leaves every other hypothesis where it was.
pub proof fn lemma_upsert_hypothesis(hs: Seq<HypothesisView>, h: HypothesisView)
    requires
        hypothesis_ids_unique(hs),
    ensures
        hypothesis_ids_unique(upsert_hypothesis(hs, h)),
        upsert_hypothesis(hs, h).len() >= hs.len(),
        forall|id: Seq<char>| #[trigger] has_hypothesis(upsert_hypothesis(hs, h), id) <==> (has_hypothesis(hs, id) || id == h.id),
        forall|i: int| 0 <= i < hs.len() && hs[i].id != h.id ==> #[trigger] upsert_hypothesis(hs, h)[i] == hs[i],
        forall|i: int| 0 <= i < upsert_hypothesis(hs, h).len() ==>
            #[trigger] upsert_hypothesis(hs, h)[i] == h || (i < hs.len() && upsert_hypothesis(hs, h)[i] == hs[i] && hs[i].id != h.id),
        lookup_hypothesis(upsert_hypothesis(hs, h), h.id) == Some(h),
{
    let u = upsert_hypothesis(hs, h);
    match hypothesis_pos(hs, h.id) {
        Some(j) => {
            assert(hs[j].id == h.id);
            assert forall|id: Seq<char>| #[trigger] has_hypothesis(u, id) <==> (has_hypothesis(hs, id) || id == h.id) by {
                if has_hypothesis(hs, id) {
                    let k = choose|k: int| 0 <= k < hs.len() && #[trigger] hs[k].id == id;
                    assert(u[k].id == id);
                }
                if has_hypothesis(u, id) {
                    let k = choose|k: int| 0 <= k < u.len() && #[trigger] u[k].id == id;
                    if k != j {
                        assert(hs[k].id == id);
                    }
                }
                if id == h.id {
                    assert(u[j].id == id);
                }
            }
            lemma_hypothesis_pos(u, j);
        },
        None => {
            assert forall|id: Seq<char>| #[trigger] has_hypothesis(u, id) <==> (has_hypothesis(hs, id) || id == h.id) by {
                if has_hypothesis(hs, id) {
                    let k = choose|k: int| 0 <= k < hs.len() && #[trigger] hs[k].id == id;
                    assert(u[k].id == id);
                }
                if has_hypothesis(u, id) {
                    let k = choose|k: int| 0 <= k < u.len() && #[trigger] u[k].id == id;
                    if k < hs.len() {
                        assert(hs[k].id == id);
                    }
                }
                if id == h.id {
                    assert(u[hs.len() as int].id == id);
                }
            }
            assert forall|i: int, k: int| 0 <= i < u.len() && 0 <= k < u.len() && i != k implies #[trigger] u[i].id != #[trigger] u[k].id by {
                if i < hs.len() && k < hs.len() {
                } else if i < hs.len() {
                    assert(!(hs[i].id == h.id));
                } else if k < hs.len() {
                    assert(!(hs[k].id == h.id));
                }
            }
            lemma_hypothesis_pos(u, hs.len() as int);
        },
    }
}

/// Storing a result keeps its ids unique and adds its hypothesis id.
pub proof fn lemma_upsert_result(rs: Seq<ExperimentResultView>, r: ExperimentResultView)
    requires
        result_ids_unique(rs),
    ensures
        result_ids_unique(upsert_result(rs, r)),
        forall|i: int| 0 <= i < upsert_result(rs, r).len() ==>
            #[trigger] upsert_result(rs, r)[i] == r || (i < rs.len() && upsert_result(rs, r)[i] == rs[i]),
        forall|id: Seq<char>| #[trigger] lookup_result(upsert_result(rs, r), id)
            == if id == r.hypothesis_id { Some(r) } else { lookup_result(rs, id) },
{
    let u = upsert_result(rs, r);
    match result_pos(rs, r.hypothesis_id) {
        Some(j) => {
            assert(rs[j].hypothesis_id == r.hypothesis_id);
            assert forall|id: Seq<char>| #[trigger] lookup_result(u, id)
                == if id == r.hypothesis_id { Some(r) } else { lookup_result(rs, id) } by {
                if id == r.hypothesis_id {
                    lemma_result_pos(u, j);
                } else if has_result(rs, id) {
                    let k = choose|k: int| 0 <= k < rs.len() && #[trigger] rs[k].hypothesis_id == id;
                    lemma_result_pos(rs, k);
                    lemma_result_pos(u, k);
                } else {
                    if has_result(u, id) {
                        let k = choose|k: int| 0 <= k < u.len() && #[trigger] u[k].hypothesis_id == id;
                        assert(rs[k].hypothesis_id == id);
                    }
                }
            }
        },
        None => {
            assert forall|id: Seq<char>| #[trigger] lookup_result(u, id)
                == if id == r.hypothesis_id { Some(r) } else { lookup_result(rs, id) } by {
                if id == r.hypothesis_id {
                    lemma_result_pos_push(rs, r);
                } else if has_result(rs, id) {
                    let k = choose|k: int| 0 <= k < rs.len() && #[trigger] rs[k].hypothesis_id == id;
                    lemma_result_pos(rs, k);
                    lemma_upsert_result_unique_push(rs, r);
                    lemma_result_pos(u, k);
                } else {
                    if has_result(u, id) {
                        let k = choose|k: int| 0 <= k < u.len() && #[trigger] u[k].hypothesis_id == id;
                        if k < rs.len() {
                            assert(rs[k].hypothesis_id == id);
                        }
                    }
                }
            }
            assert forall|i: int, k: int| 0 <= i < u.len() && 0 <= k < u.len() && i != k implies #[trigger] u[i].hypothesis_id != #[trigger] u[k].hypothesis_id by {
                if i < rs.len() && k < rs.len() {
                } else if i < rs.len() {
                    assert(!(rs[i].hypothesis_id == r.hypothesis_id));
                } else if k < rs.len() {
                    assert(!(rs[k].hypothesis_id == r.hypothesis_id));
                }
            }
        },
    }
}

/// Looking an id up after storing `h`: `h` itself for its id, as before for every other id.
pub proof fn lemma_lookup_after_upsert(hs: Seq<HypothesisView>, h: HypothesisView)
    requires
        hypothesis_ids_unique(hs),
    ensures
        forall|id: Seq<char>| #[trigger] lookup_hypothesis(upsert_hypothesis(hs, h), id)
            == if id == h.id { Some(h) } else { lookup_hypothesis(hs, id) },
{
    let u = upsert_hypothesis(hs, h);
    lemma_upsert_hypothesis(hs, h);
    assert forall|id: Seq<char>| #[trigger] lookup_hypothesis(u, id)
        == if id == h.id { Some(h) } else { lookup_hypothesis(hs, id) } by {
        if id != h.id {
            if has_hypothesis(hs, id) {
                let k = choose|k: int| 0 <= k < hs.len() && #[trigger] hs[k].id == id;
                lemma_hypothesis_pos(hs, k);
                assert(u[k] == hs[k]);
                lemma_hypothesis_pos(u, k);
            } else {
                assert(!has_hypothesis(u, id));
            }
        }
    }
}

/// Replacing the hypothesis at `j` by one with the same id keeps ids unique and the
/// set of ids, and changes the lookup of that id only.
pub proof fn lemma_lookup_after_update(hs: Seq<HypothesisView>, j: int, h: HypothesisView)
    requires
        hypothesis_ids_unique(hs),
        0 <= j < hs.len(),
        h.id == hs[j].id,
    ensures
        hypothesis_ids_unique(hs.update(j, h)),
        forall|id: Seq<char>| #[trigger] has_hypothesis(hs.update(j, h), id) <==> has_hypothesis(hs, id),
        forall|id: Seq<char>| #[trigger] lookup_hypothesis(hs.update(j, h), id)
            == if id == h.id { Some(h) } else { lookup_hypothesis(hs, id) },
{
    let u = hs.update(j, h);
    assert forall|i: int, k: int| 0 <= i < u.len() && 0 <= k < u.len() && i != k implies #[trigger] u[i].id != #[trigger] u[k].id by {
        assert(hs[i].id != hs[k].id);
    }
    assert forall|id: Seq<char>| #[trigger] has_hypothesis(u, id) <==> has_hypothesis(hs, id) by {
        if has_hypothesis(hs, id) {
            let k = choose|k: int| 0 <= k < hs.len() && #[trigger] hs[k].id == id;
            assert(u[k].id == id);
        }
        if has_hypothesis(u, id) {
            let k = choose|k: int| 0 <= k < u.len() && #[trigger] u[k].id == id;
            assert(hs[k].id == id);
        }
    }
    assert forall|id: Seq<char>| #[trigger] lookup_hypothesis(u, id)
        == if id == h.id { Some(h) } else { lookup_hypothesis(hs, id) } by {
        if id == h.id {
            lemma_hypothesis_pos(u, j);
        } else if has_hypothesis(hs, id) {
            let k = choose|k: int| 0 <= k < hs.len() && #[trigger] hs[k].id == id;
            lemma_hypothesis_pos(hs, k);
            lemma_hypothesis_pos(u, k);
        } else {
            assert(!has_hypothesis(u, id));
        }
    }
}

/// The earliest verdict after appending `v`: unchanged when there was one already.
pub proof fn lemma_first_verdict_push(vs: Seq<VerdictView>, v: VerdictView, id: Seq<char>)
    ensures
        first_verdict(vs.push(v), id) == match first_verdict(vs, id) {
            Some(w) => Some(w),
            None => if v.hypothesis_id == id { Some(v) } else { None },
        },
    decreases vs.len(),
{
    let p = vs.push(v);
    if vs.len() == 0 {
        assert(p[0] == v);
        assert(p.drop_first() =~= Seq::<VerdictView>::empty());
        assert(first_verdict(p.drop_first(), id) is None);
        assert(first_verdict(vs, id) is None);
    } else {
        assert(p[0] == vs[0]);
        assert(p.drop_first() =~= vs.drop_first().push(v));
        lemma_first_verdict_push(vs.drop_first(), v, id);
        if vs[0].hypothesis_id != id {
            assert(first_verdict(vs, id) == first_verdict(vs.drop_first(), id));
            assert(first_verdict(p, id) == first_verdict(p.drop_first(), id));
        }
    }
}

/// Appending a result for a new hypothesis id keeps result ids unique.
proof fn lemma_upsert_result_unique_push(rs: Seq<ExperimentResultView>, r: ExperimentResultView)
    requires
        result_ids_unique(rs),
        !has_result(rs, r.hypothesis_id),
    ensures
        result_ids_unique(rs.push(r)),
{
    let u = rs.push(r);
    assert forall|i: int, k: int| 0 <= i < u.len() && 0 <= k < u.len() && i != k implies #[trigger] u[i].hypothesis_id != #[trigger] u[k].hypothesis_id by {
        if i < rs.len() && k < rs.len() {
        } else if i < rs.len() {
            assert(!(rs[i].hypothesis_id == r.hypothesis_id));
        } else if k < rs.len() {
            assert(!(rs[k].hypothesis_id == r.hypothesis_id));
        }
    }
}

/// The position of a result appended for a new hypothesis id is the last one.
proof fn lemma_result_pos_push(rs: Seq<ExperimentResultView>, r: ExperimentResultView)
    requires
        result_ids_unique(rs),
        !has_result(rs, r.hypothesis_id),
    ensures
        lookup_result(rs.push(r), r.hypothesis_id) == Some(r),
{
    lemma_upsert_result_unique_push(rs, r);
    lemma_result_pos(rs.push(r), rs.len() as int);
}

/// The latest verdict after appending `v`.
pub proof fn lemma_latest_verdict_push(vs: Seq<VerdictView>, v: VerdictView, id: Seq<char>)
    ensures
        latest_verdict(vs.push(v), id) == if v.hypothesis_id == id { Some(v) } else { latest_verdict(vs, id) },
{
    assert(vs.push(v).drop_last() =~= vs);
}

/// A submission keeps the lab valid.
pub proof fn lemma_after_submit_valid(g: LabGuardView, h: HypothesisView)
    requires
        g.valid(),
    ensures
        after_submit(g, h).valid(),
{
    let s = submitted(g, h);
    let g2 = after_submit(g, h);
    lemma_upsert_hypothesis(g.hypotheses, s);
    assert forall|i: int| 0 <= i < g2.hypotheses.len() implies status_backed(g2.verdicts, #[trigger] g2.hypotheses[i]) by {
        if g2.hypotheses[i] != s {
            assert(status_backed(g.verdicts, g.hypotheses[i]));
        }
    }
    assert forall|i: int| 0 <= i < g2.results.len() implies has_hypothesis(g2.hypotheses, #[trigger] g2.results[i].hypothesis_id) by {
        assert(has_hypothesis(g.hypotheses, g.results[i].hypothesis_id));
    }
    assert forall|i: int| 0 <= i < g2.results.len() implies was_evaluated(g2.verdicts, #[trigger] g2.results[i].hypothesis_id) by {
        assert(was_evaluated(g.verdicts, g.results[i].hypothesis_id));
    }
    assert forall|i: int| 0 <= i < g2.verdicts.len() implies has_hypothesis(g2.hypotheses, #[trigger] g2.verdicts[i].hypothesis_id) by {
        assert(has_hypothesis(g.hypotheses, g.verdicts[i].hypothesis_id));
    }
}

/// Scores held in `u32`.
pub open spec fn scores_in_range(r: ExperimentResultView) -> bool {
    &&& 0 <= r.comprehension <= crate::fixed::max_score()
    &&& 0 <= r.generalization <= crate::fixed::max_score()
    &&& 0 <= r.retention <= crate::fixed::max_score()
}

/// The loss of `u32` scores lies between `LOSS_ONE - max_score_product()` and `LOSS_ONE`.
pub proof fn lemma_loss_range(r: ExperimentResultView)
    requires
        scores_in_range(r),
    ensures
        LOSS_ONE - max_score_product() <= r.loss() <= LOSS_ONE,
{
    crate::fixed::lemma_score_product_bounds(r.comprehension, r.generalization, r.retention);
}

/// An evaluation keeps the lab valid.
pub proof fn lemma_evaluation_valid(g: LabGuardView, r: ExperimentResultView)
    requires
        g.valid(),
        scores_in_range(r),
    ensures
        evaluation(g, r) matches Some((v, g2)) ==> g2.valid() && v == g2.verdicts.last(),
{
    if let Some((v, g2)) = evaluation(g, r) {
        let j = hypothesis_pos(g.hypotheses, r.hypothesis_id)->0;
        let h = g.hypotheses[j];
        assert(h.id == r.hypothesis_id);
        lemma_loss_range(r);
        lemma_upsert_result(g.results, r);
        let hs2 = g2.hypotheses;
        assert forall|i: int, k: int| 0 <= i < hs2.len() && 0 <= k < hs2.len() && i != k implies #[trigger] hs2[i].id != #[trigger] hs2[k].id by {
            assert(g.hypotheses[i].id != g.hypotheses[k].id);
        }
        assert forall|id: Seq<char>| has_hypothesis(g.hypotheses, id) implies #[trigger] has_hypothesis(hs2, id) by {
            let k = choose|k: int| 0 <= k < g.hypotheses.len() && #[trigger] g.hypotheses[k].id == id;
            assert(hs2[k].id == id);
        }
        assert forall|i: int| 0 <= i < g2.results.len() implies has_hypothesis(hs2, #[trigger] g2.results[i].hypothesis_id) by {
            if g2.results[i] == r {
                assert(hs2[j].id == r.hypothesis_id);
            } else {
                assert(has_hypothesis(g.hypotheses, g.results[i].hypothesis_id));
            }
        }
        assert forall|i: int| 0 <= i < g2.results.len() implies was_evaluated(g2.verdicts, #[trigger] g2.results[i].hypothesis_id) by {
            if g2.results[i] == r {
                assert(g2.verdicts[g.verdicts.len() as int].hypothesis_id == r.hypothesis_id);
            } else {
                assert(was_evaluated(g.verdicts, g.results[i].hypothesis_id));
                let k = choose|k: int| 0 <= k < g.verdicts.len() && #[trigger] g.verdicts[k].hypothesis_id == g.results[i].hypothesis_id;
                assert(g2.verdicts[k] == g.verdicts[k]);
            }
        }
        assert forall|i: int| 0 <= i < g2.verdicts.len() implies verdict_consistent(#[trigger] g2.verdicts[i]) && has_hypothesis(hs2, g2.verdicts[i].hypothesis_id) by {
            if i < g.verdicts.len() {
                assert(verdict_consistent(g.verdicts[i]));
                assert(has_hypothesis(g.hypotheses, g.verdicts[i].hypothesis_id));
            } else {
                assert(hs2[j].id == r.hypothesis_id);
            }
        }
        assert forall|i: int| 0 <= i < hs2.len() implies status_backed(g2.verdicts, #[trigger] hs2[i]) by {
            lemma_latest_verdict_push(g.verdicts, v, hs2[i].id);
            if i != j {
                assert(status_backed(g.verdicts, g.hypotheses[i]));
                assert(g.hypotheses[i].id != h.id);
            }
        }
    }
}

} // verus!
