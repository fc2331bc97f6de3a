use vstd::prelude::*;

use crate::experiment::{
    is_cherry_picked, loss_passes, verdict_of, warning_text, ExperimentResultView, PPM_TO_LOSS,
};
use crate::fixed::{spec_achievement_loss, spec_render_fixed, LOSS_ONE, ONE};
use crate::hypothesis::{HypothesisStatus, HypothesisView};
use crate::text::{alphanumeric, has_whole_word, law_whole_word_at_any_position, lowercase_of, word_flags};
use crate::model::{
    absolute_words, after_submit, bounded_gate, count_status, evaluation, falsifiable_gate,
    has_absolute_word, well_formed_gate, failures_of, first_verdict, gate_failures,
    gate_outcomes, has_hypothesis, hypothesis_ids_unique, hypothesis_pos, latest_verdict,
    lemma_after_submit_valid, lemma_evaluation_valid, lemma_first_verdict_push,
    lemma_hypothesis_pos, lemma_lookup_after_update, lemma_lookup_after_upsert,
    lemma_upsert_hypothesis, lemma_upsert_result, lookup_hypothesis, lookup_result, mean_loss,
    novel_gate, scores_in_range, select_status, status_backed, submit_response, submitted,
    sum_losses, verdict_consistent, was_evaluated, LabGuardView,
};

verus! {

/// A submission keeps every invariant of the lab.
pub proof fn law_submit_keeps_lab_valid(g: LabGuardView, h: HypothesisView)
    requires
        g.valid(),
    ensures
        after_submit(g, h).valid(),
{
    lemma_after_submit_valid(g, h);
}

/// An evaluation keeps every invariant of the lab.
pub proof fn law_evaluate_keeps_lab_valid(g: LabGuardView, r: ExperimentResultView)
    requires
        g.valid(),
        scores_in_range(r),
    ensures
        evaluation(g, r) matches Some((v, g2)) ==> g2.valid(),
{
    lemma_evaluation_valid(g, r);
}

/// A stored hypothesis marked confirmed got there through its latest evaluation, whose
/// Achievement Loss was below the lab's loss threshold at the time.
pub proof fn law_confirmed_only_below_loss_threshold(g: LabGuardView, i: int)
    requires
        g.valid(),
        0 <= i < g.hypotheses.len(),
        g.hypotheses[i].status == HypothesisStatus::Confirmed,
    ensures
        latest_verdict(g.verdicts, g.hypotheses[i].id) matches Some(v)
            && v.status == HypothesisStatus::Confirmed
            && v.achievement_loss < v.loss_threshold * PPM_TO_LOSS,
{
    let h = g.hypotheses[i];
    assert(status_backed(g.verdicts, h));
    lemma_latest_verdict_is_a_verdict(g.verdicts, h.id);
    let v = latest_verdict(g.verdicts, h.id)->0;
    let k = choose|k: int| 0 <= k < g.verdicts.len() && g.verdicts[k] == v;
    assert(verdict_consistent(g.verdicts[k]));
}

/// The latest verdict for an id is one of the verdicts.
proof fn lemma_latest_verdict_is_a_verdict(vs: Seq<crate::experiment::VerdictView>, id: Seq<char>)
    ensures
        latest_verdict(vs, id) matches Some(v) ==> exists|k: int| 0 <= k < vs.len() && vs[k] == v,
    decreases vs.len(),
{
    if vs.len() > 0 {
        if vs.last().hypothesis_id == id {
            assert(vs[vs.len() - 1] == vs.last());
        } else {
            lemma_latest_verdict_is_a_verdict(vs.drop_last(), id);
            if let Some(v) = latest_verdict(vs, id) {
                let k = choose|k: int| 0 <= k < vs.drop_last().len() && vs.drop_last()[k] == v;
                assert(vs[k] == v);
            }
        }
    }
}

/// Every recorded verdict confirms exactly when its loss is below the lab's loss
/// threshold it records, falsifies exactly when the loss is above it, and is inconclusive
/// exactly on it; it passed exactly when its loss is within the hypothesis's own threshold;
/// it never leaves a hypothesis pending, gated or testing.
pub proof fn law_verdict_status_follows_loss_threshold(g: LabGuardView, k: int)
    requires
        g.valid(),
        0 <= k < g.verdicts.len(),
    ensures
        g.verdicts[k].status == HypothesisStatus::Confirmed
            <==> g.verdicts[k].achievement_loss < g.verdicts[k].loss_threshold * PPM_TO_LOSS,
        g.verdicts[k].status == HypothesisStatus::Falsified
            <==> g.verdicts[k].achievement_loss > g.verdicts[k].loss_threshold * PPM_TO_LOSS,
        g.verdicts[k].status == HypothesisStatus::Inconclusive
            <==> g.verdicts[k].achievement_loss == g.verdicts[k].loss_threshold * PPM_TO_LOSS,
        g.verdicts[k].passed <==> g.verdicts[k].achievement_loss <= g.verdicts[k].threshold * PPM_TO_LOSS,
        g.verdicts[k].status != HypothesisStatus::Pending,
        g.verdicts[k].status != HypothesisStatus::Gated,
        g.verdicts[k].status != HypothesisStatus::Testing,
{
    assert(verdict_consistent(g.verdicts[k]));
}

/// The raw accuracy cannot change whether a result passes or which status it earns:
/// two results with the same three scores get the same judgement.
pub proof fn law_raw_accuracy_cannot_sway_status(
    r1: ExperimentResultView,
    r2: ExperimentResultView,
    threshold: int,
    loss_threshold: int,
)
    requires
        r1.comprehension == r2.comprehension,
        r1.generalization == r2.generalization,
        r1.retention == r2.retention,
    ensures
        verdict_of(r1, threshold, loss_threshold).status == verdict_of(r2, threshold, loss_threshold).status,
        verdict_of(r1, threshold, loss_threshold).passed == verdict_of(r2, threshold, loss_threshold).passed,
        verdict_of(r1, threshold, loss_threshold).achievement_loss == verdict_of(r2, threshold, loss_threshold).achievement_loss,
{
}

/// A verdict carries a warning exactly when the raw accuracy is above 0.95 while the
/// loss is above 0.3.
pub proof fn law_warning_iff_cherry_picked(r: ExperimentResultView, threshold: int, loss_threshold: int)
    ensures
        verdict_of(r, threshold, loss_threshold).warning.len() > 0 <==> is_cherry_picked(r.raw_accuracy, r.loss()),
        verdict_of(r, threshold, loss_threshold).warning.len() > 0 <==> {
            &&& r.raw_accuracy > 950_000
            &&& LOSS_ONE - r.comprehension * r.generalization * r.retention > 300_000_000_000_000_000
        },
{
    reveal_strlit("CHERRY-PICK WARNING: raw_accuracy ");
    let w = warning_text(r.raw_accuracy, r.loss());
    if is_cherry_picked(r.raw_accuracy, r.loss()) {
        assert(w.len() >= "CHERRY-PICK WARNING: raw_accuracy "@.len());
    }
}

/// After a submission, the hypothesis found under its id is the submitted one, gated or
/// pending according to the gates, with their reasons as its violations.
pub proof fn law_submit_then_lookup(g: LabGuardView, h: HypothesisView)
    requires
        g.valid(),
    ensures
        lookup_hypothesis(after_submit(g, h).hypotheses, h.id) == Some(submitted(g, h)),
        submitted(g, h).status == (if submit_response(g, h) is None { HypothesisStatus::Gated } else { HypothesisStatus::Pending }),
        submitted(g, h).gate_violations == gate_failures(g, h),
{
    lemma_upsert_hypothesis(g.hypotheses, submitted(g, h));
}

/// A submission passes exactly when each of the four gates passes.
pub proof fn law_submit_passes_iff_every_gate_passes(g: LabGuardView, h: HypothesisView)
    ensures
        submit_response(g, h) is None <==> forall|k: int| 0 <= k < 4 ==> #[trigger] gate_outcomes(g, h)[k] is None,
{
    let outs = gate_outcomes(g, h);
    lemma_no_failures_iff_all_pass(outs);
}

/// No failure reasons exactly when every outcome is a pass.
proof fn lemma_no_failures_iff_all_pass(outs: Seq<Option<Seq<char>>>)
    ensures
        failures_of(outs).len() == 0 <==> forall|k: int| 0 <= k < outs.len() ==> #[trigger] outs[k] is None,
    decreases outs.len(),
{
    if outs.len() > 0 {
        lemma_no_failures_iff_all_pass(outs.drop_last());
        if failures_of(outs).len() == 0 {
            assert forall|k: int| 0 <= k < outs.len() implies #[trigger] outs[k] is None by {
                if k < outs.len() - 1 {
                    assert(outs.drop_last()[k] == outs[k]);
                }
            }
        } else if forall|k: int| 0 <= k < outs.len() ==> #[trigger] outs[k] is None {
            assert(outs[outs.len() - 1] is None);
            assert forall|k: int| 0 <= k < outs.drop_last().len() implies #[trigger] outs.drop_last()[k] is None by {
                assert(outs[k] is None);
            }
        }
    }
}

/// Once submitted, an id is rejected as not novel: submitting any hypothesis with the
/// same id again fails, whatever the first submission's outcome.
pub proof fn law_resubmission_rejected(g: LabGuardView, h: HypothesisView, again: HypothesisView)
    requires
        g.valid(),
        again.id == h.id,
    ensures
        novel_gate(after_submit(g, h), again) == Some("Already tested"@),
        submit_response(after_submit(g, h), again) is Some,
{
    lemma_upsert_hypothesis(g.hypotheses, submitted(g, h));
    law_submit_passes_iff_every_gate_passes(after_submit(g, h), again);
    assert(gate_outcomes(after_submit(g, h), again)[2] is Some);
}

/// Once evaluated, an id is rejected as not novel.
pub proof fn law_evaluated_id_rejected(g: LabGuardView, r: ExperimentResultView, again: HypothesisView)
    requires
        g.valid(),
        again.id == r.hypothesis_id,
    ensures
        evaluation(g, r) matches Some((v, g2)) ==> submit_response(g2, again) is Some,
{
    if let Some((v, g2)) = evaluation(g, r) {
        assert(g2.verdicts[g2.verdicts.len() - 1].hypothesis_id == again.id);
        law_submit_passes_iff_every_gate_passes(g2, again);
        assert(gate_outcomes(g2, again)[2] is Some);
    }
}

/// An evaluation succeeds exactly when a hypothesis with the result's id is stored, and
/// then appends exactly one verdict, the one returned; stored ids are never dropped.
pub proof fn law_evaluation_records_one_verdict(g: LabGuardView, r: ExperimentResultView)
    requires
        g.valid(),
    ensures
        evaluation(g, r) is Some <==> has_hypothesis(g.hypotheses, r.hypothesis_id),
        evaluation(g, r) matches Some((v, g2)) ==> {
            &&& g2.verdicts == g.verdicts.push(v)
            &&& g2.loss_threshold == g.loss_threshold
            &&& g2.hypotheses.len() == g.hypotheses.len()
            &&& forall|id: Seq<char>| has_hypothesis(g.hypotheses, id) ==> #[trigger] has_hypothesis(g2.hypotheses, id)
        },
{
    if let Some((v, g2)) = evaluation(g, r) {
        assert forall|id: Seq<char>| has_hypothesis(g.hypotheses, id) implies #[trigger] has_hypothesis(g2.hypotheses, id) by {
            let k = choose|k: int| 0 <= k < g.hypotheses.len() && #[trigger] g.hypotheses[k].id == id;
            assert(g2.hypotheses[k].id == id);
        }
    }
}

/// A submission leaves results, verdicts (hence every count and the mean loss) and the
/// loss threshold as they were, drops no stored id, and changes the hypothesis found
/// under no id but its own.
pub proof fn law_submit_touches_only_hypotheses(g: LabGuardView, h: HypothesisView)
    requires
        g.valid(),
    ensures
        after_submit(g, h).results == g.results,
        after_submit(g, h).verdicts == g.verdicts,
        after_submit(g, h).loss_threshold == g.loss_threshold,
        forall|id: Seq<char>| has_hypothesis(g.hypotheses, id) ==> #[trigger] has_hypothesis(after_submit(g, h).hypotheses, id),
        forall|id: Seq<char>| id != h.id ==>
            #[trigger] lookup_hypothesis(after_submit(g, h).hypotheses, id) == lookup_hypothesis(g.hypotheses, id),
{
    lemma_upsert_hypothesis(g.hypotheses, submitted(g, h));
    lemma_lookup_after_upsert(g.hypotheses, submitted(g, h));
}

/// What one evaluation that answers a verdict changes: its hypothesis takes the verdict's
/// status, its result becomes the one judged, one verdict is added (so exactly one count
/// grows by one, the one of the verdict's status), the earliest verdict of every id stays,
/// and nothing stored under another id changes.
pub proof fn law_evaluation_effects(g: LabGuardView, r: ExperimentResultView)
    requires
        g.valid(),
    ensures
        evaluation(g, r) matches Some((v, g2)) ==> {
            &&& lookup_hypothesis(g2.hypotheses, r.hypothesis_id)
                == Some(HypothesisView { status: v.status, ..lookup_hypothesis(g.hypotheses, r.hypothesis_id)->0 })
            &&& forall|id: Seq<char>| id != r.hypothesis_id ==>
                #[trigger] lookup_hypothesis(g2.hypotheses, id) == lookup_hypothesis(g.hypotheses, id)
            &&& lookup_result(g2.results, r.hypothesis_id) == Some(r)
            &&& forall|id: Seq<char>| id != r.hypothesis_id ==>
                #[trigger] lookup_result(g2.results, id) == lookup_result(g.results, id)
            &&& g2.verdicts.len() == g.verdicts.len() + 1
            &&& forall|st: HypothesisStatus| #[trigger] count_status(g2.verdicts, st)
                == count_status(g.verdicts, st) + if v.status == st { 1nat } else { 0nat }
            &&& forall|id: Seq<char>| #[trigger] first_verdict(g2.verdicts, id) == match first_verdict(g.verdicts, id) {
                Some(w) => Some(w),
                None => if id == r.hypothesis_id { Some(v) } else { None },
            }
        },
{
    if let Some((v, g2)) = evaluation(g, r) {
        let j = hypothesis_pos(g.hypotheses, r.hypothesis_id)->0;
        let h = g.hypotheses[j];
        lemma_lookup_after_update(g.hypotheses, j, HypothesisView { status: v.status, ..h });
        lemma_hypothesis_pos(g.hypotheses, j);
        lemma_upsert_result(g.results, r);
        assert(g2.verdicts.drop_last() =~= g.verdicts);
        assert forall|id: Seq<char>| #[trigger] first_verdict(g2.verdicts, id) == match first_verdict(g.verdicts, id) {
            Some(w) => Some(w),
            None => if id == r.hypothesis_id { Some(v) } else { None },
        } by {
            lemma_first_verdict_push(g.verdicts, v, id);
        }
    }
}

/// A stored result always belongs to a stored hypothesis that has a verdict.
pub proof fn law_result_implies_hypothesis_and_verdict(g: LabGuardView, id: Seq<char>)
    requires
        g.valid(),
        lookup_result(g.results, id) is Some,
    ensures
        lookup_hypothesis(g.hypotheses, id) is Some,
        first_verdict(g.verdicts, id) is Some,
{
    let k = choose|k: int| 0 <= k < g.results.len() && #[trigger] g.results[k].hypothesis_id == id;
    assert(has_hypothesis(g.hypotheses, g.results[k].hypothesis_id));
    assert(was_evaluated(g.verdicts, g.results[k].hypothesis_id));
    lemma_evaluated_has_first(g.verdicts, id);
}

proof fn lemma_evaluated_has_first(vs: Seq<crate::experiment::VerdictView>, id: Seq<char>)
    requires
        was_evaluated(vs, id),
    ensures
        first_verdict(vs, id) is Some,
    decreases vs.len(),
{
    if vs[0].hypothesis_id != id {
        let k = choose|k: int| 0 <= k < vs.len() && #[trigger] vs[k].hypothesis_id == id;
        assert(vs.drop_first()[k - 1] == vs[k]);
        lemma_evaluated_has_first(vs.drop_first(), id);
    }
}

/// When every verdict's loss lies between 0 and 1 (as it does when every judged result's
/// scores lie between 0 and 1, see `law_loss_range`), so does the mean loss.
pub proof fn law_mean_loss_within_unit(vs: Seq<crate::experiment::VerdictView>)
    requires
        forall|k: int| 0 <= k < vs.len() ==> 0 <= #[trigger] vs[k].achievement_loss <= LOSS_ONE,
    ensures
        0 <= mean_loss(vs) <= LOSS_ONE,
{
    lemma_sum_within(vs);
    if vs.len() > 0 {
        let n = vs.len() as int;
        let sum = sum_losses(vs);
        assert(0 <= sum / n <= LOSS_ONE) by (nonlinear_arith)
            requires 0 <= sum <= n * LOSS_ONE, n > 0;
    }
}

/// The mean loss is the sum of the losses divided by their number, rounded down: it
/// times the number is at most the sum, and one more than it times the number exceeds it.
pub proof fn law_mean_loss_divides_sum(vs: Seq<crate::experiment::VerdictView>)
    requires
        vs.len() > 0,
    ensures
        mean_loss(vs) * vs.len() <= sum_losses(vs) < (mean_loss(vs) + 1) * vs.len(),
{
    let n = vs.len() as int;
    let sum = sum_losses(vs);
    let q = sum / n;
    assert(q * n <= sum < (q + 1) * n) by (nonlinear_arith)
        requires n > 0, q == sum / n;
}

proof fn lemma_sum_within(vs: Seq<crate::experiment::VerdictView>)
    requires
        forall|k: int| 0 <= k < vs.len() ==> 0 <= #[trigger] vs[k].achievement_loss <= LOSS_ONE,
    ensures
        0 <= sum_losses(vs) <= vs.len() * LOSS_ONE,
    decreases vs.len(),
{
    if vs.len() > 0 {
        assert forall|k: int| 0 <= k < vs.drop_last().len() implies 0 <= #[trigger] vs.drop_last()[k].achievement_loss <= LOSS_ONE by {
            assert(vs.drop_last()[k] == vs[k]);
        }
        lemma_sum_within(vs.drop_last());
        assert(vs[vs.len() - 1] == vs.last());
    }
}

/// `by_status` gives each stored hypothesis with the status, and only those, once each
/// (their ids are distinct); over the six statuses the answers together hold every
/// stored hypothesis exactly once.
pub proof fn law_by_status_partitions(g: LabGuardView, st: HypothesisStatus)
    requires
        g.valid(),
    ensures
        forall|x: HypothesisView| #[trigger] select_status(g.hypotheses, st).contains(x)
            <==> (g.hypotheses.contains(x) && x.status == st),
        hypothesis_ids_unique(select_status(g.hypotheses, st)),
        select_status(g.hypotheses, HypothesisStatus::Pending).len()
            + select_status(g.hypotheses, HypothesisStatus::Gated).len()
            + select_status(g.hypotheses, HypothesisStatus::Testing).len()
            + select_status(g.hypotheses, HypothesisStatus::Confirmed).len()
            + select_status(g.hypotheses, HypothesisStatus::Falsified).len()
            + select_status(g.hypotheses, HypothesisStatus::Inconclusive).len() == g.hypotheses.len(),
{
    lemma_select(g.hypotheses, st);
}

proof fn lemma_select(hs: Seq<HypothesisView>, st: HypothesisStatus)
    requires
        hypothesis_ids_unique(hs),
    ensures
        forall|x: HypothesisView| #[trigger] select_status(hs, st).contains(x) <==> (hs.contains(x) && x.status == st),
        hypothesis_ids_unique(select_status(hs, st)),
        forall|y: HypothesisView| #[trigger] select_status(hs, st).contains(y) ==> has_hypothesis(hs, y.id),
        select_status(hs, HypothesisStatus::Pending).len()
            + select_status(hs, HypothesisStatus::Gated).len()
            + select_status(hs, HypothesisStatus::Testing).len()
            + select_status(hs, HypothesisStatus::Confirmed).len()
            + select_status(hs, HypothesisStatus::Falsified).len()
            + select_status(hs, HypothesisStatus::Inconclusive).len() == hs.len(),
    decreases hs.len(),
{
    if hs.len() > 0 {
        let p = hs.drop_last();
        let last = hs.last();
        assert(hypothesis_ids_unique(p)) by {
            assert forall|i: int, k: int| 0 <= i < p.len() && 0 <= k < p.len() && i != k implies #[trigger] p[i].id != #[trigger] p[k].id by {
                assert(hs[i].id != hs[k].id);
            }
        }
        lemma_select(p, st);
        assert(hs =~= p.push(last));
        assert forall|x: HypothesisView| #[trigger] hs.contains(x) <==> (p.contains(x) || x == last) by {
            if hs.contains(x) {
                let i = choose|i: int| 0 <= i < hs.len() && hs[i] == x;
                if i < p.len() {
                    assert(p[i] == x);
                }
            }
            if p.contains(x) {
                let i = choose|i: int| 0 <= i < p.len() && p[i] == x;
                assert(hs[i] == x);
            }
            if x == last {
                assert(hs[hs.len() - 1] == x);
            }
        }
        assert(!has_hypothesis(p, last.id)) by {
            if has_hypothesis(p, last.id) {
                let i = choose|i: int| 0 <= i < p.len() && #[trigger] p[i].id == last.id;
                assert(hs[i].id == hs[hs.len() - 1].id);
            }
        }
        let sp = select_status(p, st);
        if last.status == st {
            let sel = sp.push(last);
            assert forall|x: HypothesisView| #[trigger] sel.contains(x) <==> (sp.contains(x) || x == last) by {
                if sel.contains(x) {
                    let i = choose|i: int| 0 <= i < sel.len() && sel[i] == x;
                    if i < sp.len() {
                        assert(sp[i] == x);
                    }
                }
                if sp.contains(x) {
                    let i = choose|i: int| 0 <= i < sp.len() && sp[i] == x;
                    assert(sel[i] == x);
                }
                if x == last {
                    assert(sel[sel.len() - 1] == x);
                }
            }
            assert forall|i: int, k: int| 0 <= i < sel.len() && 0 <= k < sel.len() && i != k implies #[trigger] sel[i].id != #[trigger] sel[k].id by {
                if i < sp.len() && k < sp.len() {
                } else if i < sp.len() {
                    assert(sp.contains(sp[i]));
                    assert(has_hypothesis(p, sp[i].id));
                } else if k < sp.len() {
                    assert(sp.contains(sp[k]));
                    assert(has_hypothesis(p, sp[k].id));
                }
            }
            assert forall|y: HypothesisView| #[trigger] sel.contains(y) implies has_hypothesis(hs, y.id) by {
                if y == last {
                    assert(hs[hs.len() - 1].id == y.id);
                } else {
                    let i = choose|i: int| 0 <= i < p.len() && #[trigger] p[i].id == y.id;
                    assert(hs[i].id == y.id);
                }
            }
        } else {
            assert forall|y: HypothesisView| #[trigger] sp.contains(y) implies has_hypothesis(hs, y.id) by {
                let i = choose|i: int| 0 <= i < p.len() && #[trigger] p[i].id == y.id;
                assert(hs[i].id == y.id);
            }
        }
    }
}

/// Confirmed and falsified verdicts together never outnumber the verdicts given.
pub proof fn law_counts_bounded(g: LabGuardView)
    ensures
        count_status(g.verdicts, HypothesisStatus::Confirmed) + count_status(g.verdicts, HypothesisStatus::Falsified)
            <= g.verdicts.len(),
{
    lemma_counts_bounded(g.verdicts);
}

proof fn lemma_counts_bounded(vs: Seq<crate::experiment::VerdictView>)
    ensures
        count_status(vs, HypothesisStatus::Confirmed) + count_status(vs, HypothesisStatus::Falsified) <= vs.len(),
    decreases vs.len(),
{
    if vs.len() > 0 {
        lemma_counts_bounded(vs.drop_last());
    }
}

/// With scores between 0 and 1, the Achievement Loss lies between 0 and 1; perfect
/// scores give no loss and any zero score gives the full loss.
pub proof fn law_loss_range(c: int, g: int, r: int)
    requires
        0 <= c <= ONE,
        0 <= g <= ONE,
        0 <= r <= ONE,
    ensures
        0 <= spec_achievement_loss(c, g, r) <= LOSS_ONE,
        spec_achievement_loss(ONE as int, ONE as int, ONE as int) == 0,
        (c == 0 || g == 0 || r == 0) ==> spec_achievement_loss(c, g, r) == LOSS_ONE,
{
    assert(0 <= c * g <= ONE * ONE) by (nonlinear_arith)
        requires 0 <= c <= ONE, 0 <= g <= ONE;
    assert(0 <= (c * g) * r <= (ONE * ONE) * ONE) by (nonlinear_arith)
        requires 0 <= c * g <= ONE * ONE, 0 <= r <= ONE;
    assert((c == 0 || g == 0 || r == 0) ==> c * g * r == 0) by (nonlinear_arith);
}

/// Raising a (non-negative) score never raises the Achievement Loss.
pub proof fn law_loss_monotone(c1: int, c2: int, g: int, r: int)
    requires
        0 <= c1 <= c2,
        0 <= g,
        0 <= r,
    ensures
        spec_achievement_loss(c2, g, r) <= spec_achievement_loss(c1, g, r),
        spec_achievement_loss(g, c2, r) <= spec_achievement_loss(g, c1, r),
        spec_achievement_loss(g, r, c2) <= spec_achievement_loss(g, r, c1),
{
    assert(c1 * g * r <= c2 * g * r) by (nonlinear_arith)
        requires 0 <= c1 <= c2, 0 <= g, 0 <= r;
    assert(g * c1 * r <= g * c2 * r) by (nonlinear_arith)
        requires 0 <= c1 <= c2, 0 <= g, 0 <= r;
    assert(g * r * c1 <= g * r * c2) by (nonlinear_arith)
        requires 0 <= c1 <= c2, 0 <= g, 0 <= r;
}

/// The status of a result is judged against the lab's loss threshold alone: confirmed
/// below it, falsified above it, inconclusive exactly on it, whatever the hypothesis's own
/// threshold; the result passes exactly when its loss is within that own threshold.
pub proof fn law_status_classification(
    r: ExperimentResultView,
    threshold: int,
    other_threshold: int,
    loss_threshold: int,
)
    ensures
        verdict_of(r, threshold, loss_threshold).passed <==> loss_passes(r.loss(), threshold),
        verdict_of(r, threshold, loss_threshold).passed
            <==> LOSS_ONE - r.comprehension * r.generalization * r.retention <= threshold * 1_000_000_000_000,
        verdict_of(r, threshold, loss_threshold).status == HypothesisStatus::Confirmed
            <==> r.loss() < loss_threshold * PPM_TO_LOSS,
        verdict_of(r, threshold, loss_threshold).status == HypothesisStatus::Falsified
            <==> r.loss() > loss_threshold * PPM_TO_LOSS,
        verdict_of(r, threshold, loss_threshold).status == HypothesisStatus::Inconclusive
            <==> r.loss() == loss_threshold * PPM_TO_LOSS,
        verdict_of(r, threshold, loss_threshold).status == verdict_of(r, other_threshold, loss_threshold).status,
{
}

/// A claim holds an absolute word as soon as one of the listed words or phrases occurs
/// in it at any position with no letter or digit just before or after it (earlier
/// occurrences inside longer words do not matter), and only then.
pub proof fn law_absolute_word_anywhere(text: Seq<char>, k: int, i: int)
    requires
        0 <= k < absolute_words().len(),
    ensures
        (0 <= i && i + absolute_words()[k].len() <= text.len()
            && text.subrange(i, i + absolute_words()[k].len()) == absolute_words()[k]
            && (i == 0 || !alphanumeric(text[i - 1]))
            && (i + absolute_words()[k].len() == text.len() || !alphanumeric(text[i + absolute_words()[k].len()])))
            ==> has_absolute_word(text),
        has_absolute_word(text) ==> exists|m: int, j: int|
            #![trigger absolute_words()[m], text.subrange(j, j + absolute_words()[m].len())]
            {
                &&& 0 <= m < absolute_words().len()
                &&& 0 <= j
                &&& j + absolute_words()[m].len() <= text.len()
                &&& text.subrange(j, j + absolute_words()[m].len()) == absolute_words()[m]
                &&& (j == 0 || !alphanumeric(text[j - 1]))
                &&& (j + absolute_words()[m].len() == text.len() || !alphanumeric(text[j + absolute_words()[m].len()]))
            },
{
    law_whole_word_at_any_position(text, absolute_words()[k], i);
    if has_absolute_word(text) {
        let m = choose|m: int| 0 <= m < absolute_words().len()
            && #[trigger] has_whole_word(text, word_flags(text), absolute_words()[m]);
        law_whole_word_at_any_position(text, absolute_words()[m], 0);
        let j = choose|j: int| {
            &&& 0 <= j
            &&& j + absolute_words()[m].len() <= text.len()
            &&& #[trigger] text.subrange(j, j + absolute_words()[m].len()) == absolute_words()[m]
            &&& (j == 0 || !alphanumeric(text[j - 1]))
            &&& (j + absolute_words()[m].len() == text.len() || !alphanumeric(text[j + absolute_words()[m].len()]))
        };
        assert(text.subrange(j, j + absolute_words()[m].len()) == absolute_words()[m]);
    }
}

/// A submission passes exactly when the claim is non-empty, conditions are given, the
/// threshold lies strictly between 0 and 1, the lower-cased claim holds no absolute word,
/// and the id is neither stored nor evaluated; the stored hypothesis is gated then and
/// pending otherwise.
pub proof fn law_submit_passes_exactly_when(g: LabGuardView, h: HypothesisView)
    ensures
        submit_response(g, h) is None <==> {
            &&& h.claim.len() > 0
            &&& h.conditions.len() > 0
            &&& 0 < h.threshold < ONE
            &&& !has_absolute_word(lowercase_of(h.claim))
            &&& !has_hypothesis(g.hypotheses, h.id)
            &&& !was_evaluated(g.verdicts, h.id)
        },
        submitted(g, h).status == if submit_response(g, h) is None { HypothesisStatus::Gated } else { HypothesisStatus::Pending },
{
    law_submit_passes_iff_every_gate_passes(g, h);
    let outs = gate_outcomes(g, h);
    assert(outs[0] == well_formed_gate(h));
    assert(outs[1] == falsifiable_gate(h));
    assert(outs[2] == novel_gate(g, h));
    assert(outs[3] == bounded_gate(h));
    lemma_no_failures_iff_all_pass(outs);
}

/// With a claim and conditions present, a threshold of 0 or less, or of 1 or more, is
/// refused first with the reason "Threshold must be 0.0 < t < 1.0", and the hypothesis is
/// stored pending.
pub proof fn law_threshold_outside_unit_refused(g: LabGuardView, h: HypothesisView)
    requires
        h.claim.len() > 0,
        h.conditions.len() > 0,
        h.threshold <= 0 || h.threshold >= ONE,
    ensures
        gate_failures(g, h).len() >= 1,
        gate_failures(g, h)[0] == "Threshold must be 0.0 < t < 1.0"@,
        submit_response(g, h) is Some,
        submitted(g, h).status == HypothesisStatus::Pending,
{
    law_submit_passes_exactly_when(g, h);
    lemma_first_failure(gate_outcomes(g, h));
}

/// The first failure reason is the reason of the first failed outcome.
proof fn lemma_first_failure(outs: Seq<Option<Seq<char>>>)
    requires
        outs.len() >= 1,
        outs[0] is Some,
    ensures
        failures_of(outs).len() >= 1,
        failures_of(outs)[0] == outs[0]->0,
    decreases outs.len(),
{
    let prefix = outs.drop_last();
    if outs.len() > 1 {
        assert(prefix[0] == outs[0]);
        lemma_first_failure(prefix);
        let fp = failures_of(prefix);
        match outs.last() {
            Some(reason) => {
                assert(failures_of(outs) == fp.push(reason));
                assert(fp.push(reason)[0] == fp[0]);
            },
            None => {
                assert(failures_of(outs) == fp);
            },
        }
    } else {
        assert(prefix =~= Seq::<Option<Seq<char>>>::empty());
        assert(failures_of(prefix) == Seq::<Seq<char>>::empty());
        assert(outs.last() == outs[0]);
        assert(failures_of(outs) == Seq::<Seq<char>>::empty().push(outs[0]->0));
    }
}

/// A verdict reports the result it judges: the result's id and raw accuracy, the loss
/// `1 - comprehension * generalization * retention` of the result's own scores, the
/// hypothesis threshold and the lab's loss threshold it was judged with.
pub proof fn law_verdict_reports_result(r: ExperimentResultView, threshold: int, loss_threshold: int)
    ensures
        verdict_of(r, threshold, loss_threshold).hypothesis_id == r.hypothesis_id,
        verdict_of(r, threshold, loss_threshold).raw_accuracy == r.raw_accuracy,
        verdict_of(r, threshold, loss_threshold).achievement_loss
            == LOSS_ONE - r.comprehension * r.generalization * r.retention,
        verdict_of(r, threshold, loss_threshold).threshold == threshold,
        verdict_of(r, threshold, loss_threshold).loss_threshold == loss_threshold,
{
}

/// The verdict an evaluation answers carries the evaluated result's id and raw accuracy,
/// the stored hypothesis's threshold and the lab's current loss threshold.
pub proof fn law_evaluation_verdict_reports(g: LabGuardView, r: ExperimentResultView)
    requires
        g.valid(),
    ensures
        evaluation(g, r) matches Some((v, g2)) ==> {
            &&& v.hypothesis_id == r.hypothesis_id
            &&& v.raw_accuracy == r.raw_accuracy
            &&& v.achievement_loss == LOSS_ONE - r.comprehension * r.generalization * r.retention
            &&& v.threshold == lookup_hypothesis(g.hypotheses, r.hypothesis_id)->0.threshold
            &&& v.loss_threshold == g.loss_threshold
        },
{
    if let Some((v, g2)) = evaluation(g, r) {
        let j = hypothesis_pos(g.hypotheses, r.hypothesis_id)->0;
        lemma_hypothesis_pos(g.hypotheses, j);
        law_verdict_reports_result(r, g.hypotheses[j].threshold, g.loss_threshold);
    }
}

/// The details text shows, in order, the loss and the threshold to four decimals and the
/// three scores to two, each as `render_fixed` writes it; the warning, when there is one,
/// shows the raw accuracy and the loss to two decimals.
pub proof fn law_verdict_texts(r: ExperimentResultView, threshold: int, loss_threshold: int)
    ensures
        verdict_of(r, threshold, loss_threshold).details ==
            "loss="@ + spec_render_fixed(LOSS_ONE - r.comprehension * r.generalization * r.retention, 18, 4)
            + " threshold="@ + spec_render_fixed(threshold, 6, 4)
            + " comp="@ + spec_render_fixed(r.comprehension, 6, 2)
            + " gen="@ + spec_render_fixed(r.generalization, 6, 2)
            + " ret="@ + spec_render_fixed(r.retention, 6, 2),
        verdict_of(r, threshold, loss_threshold).warning.len() > 0 ==>
            verdict_of(r, threshold, loss_threshold).warning ==
                "CHERRY-PICK WARNING: raw_accuracy "@ + spec_render_fixed(r.raw_accuracy, 6, 2)
                + " but loss "@ + spec_render_fixed(LOSS_ONE - r.comprehension * r.generalization * r.retention, 18, 2)
                + " \u{2014} results may be cherry-picked"@,
{
}

} // verus!
