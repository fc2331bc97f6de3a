use vstd::prelude::*;

use crate::experiment::{ExperimentResultView, VerdictView};
use crate::hypothesis::HypothesisView;
use crate::model::{
    after_submit, count_status, evaluation, first_verdict, has_hypothesis, lemma_after_submit_valid,
    lemma_evaluation_valid, lemma_lookup_after_update, lemma_upsert_hypothesis, lemma_upsert_result,
    lookup_result, scores_in_range, LabGuardView,
};

verus! {

/// A call a client makes on the lab.
pub enum LabCall {
    Submit(HypothesisView),
    Evaluate(ExperimentResultView),
}

/// The state after one call.
pub open spec fn step(g: LabGuardView, call: LabCall) -> LabGuardView {
    match call {
        LabCall::Submit(h) => after_submit(g, h),
        LabCall::Evaluate(r) => match evaluation(g, r) {
            Some((_v, g2)) => g2,
            None => g,
        },
    }
}

/// The state after a sequence of calls, made in order from `g`.
pub open spec fn run(g: LabGuardView, calls: Seq<LabCall>) -> LabGuardView
    decreases calls.len(),
{
    if calls.len() == 0 {
        g
    } else {
        step(run(g, calls.drop_last()), calls.last())
    }
}

/// The verdicts the evaluations among `calls` answered, in order.
pub open spec fn verdicts_answered(g: LabGuardView, calls: Seq<LabCall>) -> Seq<VerdictView>
    decreases calls.len(),
{
    if calls.len() == 0 {
        Seq::empty()
    } else {
        let earlier = verdicts_answered(g, calls.drop_last());
        match calls.last() {
            LabCall::Evaluate(r) => match evaluation(run(g, calls.drop_last()), r) {
                Some((v, _g2)) => earlier.push(v),
                None => earlier,
            },
            LabCall::Submit(_h) => earlier,
        }
    }
}

/// The results of the evaluations among `calls` that answered a verdict, in order.
pub open spec fn results_judged(g: LabGuardView, calls: Seq<LabCall>) -> Seq<ExperimentResultView>
    decreases calls.len(),
{
    if calls.len() == 0 {
        Seq::empty()
    } else {
        let earlier = results_judged(g, calls.drop_last());
        match calls.last() {
            LabCall::Evaluate(r) => match evaluation(run(g, calls.drop_last()), r) {
                Some((_v, _g2)) => earlier.push(r),
                None => earlier,
            },
            LabCall::Submit(_h) => earlier,
        }
    }
}

/// Whether one of `calls` submits a hypothesis with `id`.
pub open spec fn submits_id(calls: Seq<LabCall>, id: Seq<char>) -> bool
    decreases calls.len(),
{
    if calls.len() == 0 {
        false
    } else {
        submits_id(calls.drop_last(), id) || (calls.last() matches LabCall::Submit(h) && h.id == id)
    }
}

/// Every evaluated result among `calls` has scores held in `u32`.
pub open spec fn calls_in_range(calls: Seq<LabCall>) -> bool {
    forall|k: int| 0 <= k < calls.len() ==> (#[trigger] calls[k] matches LabCall::Evaluate(r) ==> scores_in_range(r))
}

/// The last result for hypothesis `id` in `rs`.
pub open spec fn latest_result(rs: Seq<ExperimentResultView>, id: Seq<char>) -> Option<ExperimentResultView>
    decreases rs.len(),
{
    if rs.len() == 0 {
        None
    } else if rs.last().hypothesis_id == id {
        Some(rs.last())
    } else {
        latest_result(rs.drop_last(), id)
    }
}

/// A lab with nothing stored.
pub open spec fn empty_lab(loss_threshold: int) -> LabGuardView {
    LabGuardView {
        hypotheses: Seq::empty(),
        results: Seq::empty(),
        verdicts: Seq::empty(),
        loss_threshold,
    }
}

proof fn lemma_calls_in_range_prefix(calls: Seq<LabCall>)
    requires
        calls_in_range(calls),
        calls.len() > 0,
    ensures
        calls_in_range(calls.drop_last()),
        calls.last() matches LabCall::Evaluate(r) ==> scores_in_range(r),
{
    assert(calls[calls.len() - 1] == calls.last());
    assert forall|k: int| 0 <= k < calls.drop_last().len() implies (#[trigger] calls.drop_last()[k] matches LabCall::Evaluate(r) ==> scores_in_range(r)) by {
        assert(calls.drop_last()[k] == calls[k]);
    }
}

/// The empty lab is valid.
pub proof fn law_empty_lab_valid(loss_threshold: int)
    ensures
        empty_lab(loss_threshold).valid(),
{
}

/// Any sequence of calls keeps the lab valid.
pub proof fn law_run_keeps_valid(g: LabGuardView, calls: Seq<LabCall>)
    requires
        g.valid(),
        calls_in_range(calls),
    ensures
        run(g, calls).valid(),
    decreases calls.len(),
{
    if calls.len() > 0 {
        lemma_calls_in_range_prefix(calls);
        law_run_keeps_valid(g, calls.drop_last());
        let before = run(g, calls.drop_last());
        match calls.last() {
            LabCall::Submit(h) => lemma_after_submit_valid(before, h),
            LabCall::Evaluate(r) => lemma_evaluation_valid(before, r),
        }
    }
}

/// The verdicts after a sequence of calls are the earlier ones followed by those the
/// evaluations answered; nothing else adds or removes a verdict.
pub proof fn law_run_verdicts(g: LabGuardView, calls: Seq<LabCall>)
    ensures
        run(g, calls).verdicts == g.verdicts + verdicts_answered(g, calls),
    decreases calls.len(),
{
    if calls.len() == 0 {
        assert(g.verdicts + Seq::<VerdictView>::empty() =~= g.verdicts);
    } else {
        law_run_verdicts(g, calls.drop_last());
        let before = run(g, calls.drop_last());
        let earlier = verdicts_answered(g, calls.drop_last());
        match calls.last() {
            LabCall::Evaluate(r) => {
                if let Some((v, _g2)) = evaluation(before, r) {
                    assert((g.verdicts + earlier).push(v) =~= g.verdicts + earlier.push(v));
                }
            },
            LabCall::Submit(_h) => {},
        }
    }
}

/// From an empty lab, `total_evaluated` is the number of evaluations that answered a
/// verdict, the confirmed and falsified counts count those answers, and the verdict
/// found for an id is the first one answered for it.
pub proof fn law_counts_from_empty(loss_threshold: int, calls: Seq<LabCall>, id: Seq<char>)
    ensures
        run(empty_lab(loss_threshold), calls).verdicts == verdicts_answered(empty_lab(loss_threshold), calls),
        run(empty_lab(loss_threshold), calls).verdicts.len() == verdicts_answered(empty_lab(loss_threshold), calls).len(),
        forall|s: crate::hypothesis::HypothesisStatus| #[trigger] count_status(run(empty_lab(loss_threshold), calls).verdicts, s)
            == count_status(verdicts_answered(empty_lab(loss_threshold), calls), s),
        first_verdict(run(empty_lab(loss_threshold), calls).verdicts, id)
            == first_verdict(verdicts_answered(empty_lab(loss_threshold), calls), id),
{
    let g = empty_lab(loss_threshold);
    law_run_verdicts(g, calls);
    assert(g.verdicts + verdicts_answered(g, calls) =~= verdicts_answered(g, calls));
}

/// After a sequence of calls, a hypothesis id is stored exactly when it was stored before
/// or one of the calls submitted it (whatever the gates answered): ids are never dropped.
pub proof fn law_run_hypothesis_ids(g: LabGuardView, calls: Seq<LabCall>, id: Seq<char>)
    requires
        g.valid(),
        calls_in_range(calls),
    ensures
        has_hypothesis(run(g, calls).hypotheses, id) <==> (has_hypothesis(g.hypotheses, id) || submits_id(calls, id)),
    decreases calls.len(),
{
    if calls.len() > 0 {
        lemma_calls_in_range_prefix(calls);
        law_run_hypothesis_ids(g, calls.drop_last(), id);
        law_run_keeps_valid(g, calls.drop_last());
        let before = run(g, calls.drop_last());
        match calls.last() {
            LabCall::Submit(h) => {
                lemma_upsert_hypothesis(before.hypotheses, crate::model::submitted(before, h));
            },
            LabCall::Evaluate(r) => {
                if let Some((v, _g2)) = evaluation(before, r) {
                    let j = crate::model::hypothesis_pos(before.hypotheses, r.hypothesis_id)->0;
                    let h = before.hypotheses[j];
                    lemma_lookup_after_update(before.hypotheses, j, HypothesisView { status: v.status, ..h });
                }
            },
        }
    }
}

/// Starting with no stored results, the result found for an id after a sequence of calls
/// is the last result judged for it, and none when no evaluation of it answered.
pub proof fn law_run_results(g: LabGuardView, calls: Seq<LabCall>, id: Seq<char>)
    requires
        g.valid(),
        g.results.len() == 0,
        calls_in_range(calls),
    ensures
        lookup_result(run(g, calls).results, id) == latest_result(results_judged(g, calls), id),
    decreases calls.len(),
{
    if calls.len() == 0 {
        assert(!crate::model::has_result(g.results, id));
    } else {
        lemma_calls_in_range_prefix(calls);
        law_run_results(g, calls.drop_last(), id);
        law_run_keeps_valid(g, calls.drop_last());
        let before = run(g, calls.drop_last());
        let earlier = results_judged(g, calls.drop_last());
        match calls.last() {
            LabCall::Evaluate(r) => {
                if let Some((_v, _g2)) = evaluation(before, r) {
                    lemma_upsert_result(before.results, r);
                    assert(earlier.push(r).drop_last() =~= earlier);
                }
            },
            LabCall::Submit(_h) => {},
        }
    }
}

} // verus!
