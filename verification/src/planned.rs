//! The search of an investigation that a language model plans, and the words
//! that go to the model and come back from it.

use vstd::prelude::*;

use crate::answers;
use crate::answers::llm_summary_is_usable;
use crate::args::{BackendArg, InvestigateWorkflowArgs, InvestigationMode};
use crate::digits::count_text;
use crate::investigation::{InvestigationStep, InvestigationTraceStep};
use crate::num::Num;
use crate::numeric;
use crate::numeric::extract_numeric_texts;
use crate::planner;
use crate::planner::InvestigationExecAction;
use crate::report;
use crate::scan;
use crate::scan::lines_of;
use crate::scope;
use crate::scope::copy_scope;
use crate::text;
use crate::text::{blank, cat2, cat3, cat4, cat5, trimmed};
use crate::workflow;
use crate::workflow::TraceView;

verus! {

// ---------------------------------------------------------------------------
// Models
// ---------------------------------------------------------------------------

/// The first of two settings that is filled, trimmed.
pub open spec fn filled_setting(first: Option<Seq<char>>, second: Option<Seq<char>>) -> Option<
    Seq<char>,
> {
    match first {
        Some(s) if text::trim(s).len() > 0 => Some(text::trim(s)),
        _ => match second {
            Some(s) if text::trim(s).len() > 0 => Some(text::trim(s)),
            _ => None,
        },
    }
}

/// The local model that the environment names: the setting for planners,
/// else the general one.
pub fn local_planner_model(planner_setting: &Option<String>, general_setting: &Option<String>) -> (r:
    Option<String>)
    ensures
        planner::optional_text(r) == filled_setting(
            planner::optional_text(*planner_setting),
            planner::optional_text(*general_setting),
        ),
{
    match planner_setting {
        Some(s) => {
            let t = trimmed(s.as_str());
            if !t.as_str().is_empty() {
                return Some(t);
            }
        },
        None => {},
    }
    match general_setting {
        Some(s) => {
            let t = trimmed(s.as_str());
            if !t.as_str().is_empty() {
                Some(t)
            } else {
                None
            }
        },
        None => None,
    }
}

/// The planner's model, or why there is none.
pub open spec fn planner_model(
    args: InvestigateWorkflowArgs,
    remote: Seq<char>,
    local: Option<Seq<char>>,
) -> Result<Seq<char>, Seq<char>> {
    if args.planner_model is Some && !text::is_blank(args.planner_model->0@) {
        Ok(args.planner_model->0@)
    } else if args.planner_backend == BackendArg::Bedrock {
        Ok(remote)
    } else {
        match local {
            Some(m) => Ok(m),
            None => Err(
                "--planner-model is required when --planner llm --planner-backend local (or set FACTORLENS_PLANNER_LOCAL_MODEL / FACTORLENS_LOCAL_MODEL)"@,
            ),
        }
    }
}

/// The planner's model: the one asked for, else the backend's own. `remote` is
/// the model that the remote backend offers by default, `local` the local one
/// that the environment names.
pub fn resolve_planner_model(
    args: &InvestigateWorkflowArgs,
    remote: &str,
    local: &Option<String>,
) -> (r: Result<String, String>)
    ensures
        crate::artifacts::text_result(r) == planner_model(
            *args,
            remote@,
            planner::optional_text(*local),
        ),
{
    match &args.planner_model {
        Some(m) => {
            if !blank(m.as_str()) {
                return Ok(m.clone());
            }
        },
        None => {},
    }
    match args.planner_backend {
        BackendArg::Bedrock => Ok(remote.to_owned()),
        BackendArg::Local => match local {
            Some(m) => Ok(m.clone()),
            None => Err(
                "--planner-model is required when --planner llm --planner-backend local (or set FACTORLENS_PLANNER_LOCAL_MODEL / FACTORLENS_LOCAL_MODEL)".to_owned(),
            ),
        },
    }
}

/// The local model that stands in where the planner's backend fails: only a
/// remote planner has one.
pub fn local_fallback_planner_model_name(args: &InvestigateWorkflowArgs, local: &Option<String>) -> (r:
    Option<String>)
    ensures
        planner::optional_text(r) == (if args.planner_backend == BackendArg::Bedrock {
            planner::optional_text(*local)
        } else {
            None
        }),
{
    match args.planner_backend {
        BackendArg::Bedrock => match local {
            Some(m) => Some(m.clone()),
            None => None,
        },
        BackendArg::Local => None,
    }
}

// ---------------------------------------------------------------------------
// Prompts
// ---------------------------------------------------------------------------

/// What a planner is told about its task.
pub fn planner_system_prompt() -> (r: &'static str)
    ensures
        r@
            == "You are an analysis planner for FactorLens. Choose exactly one action: analyze_compare, drill_down, or stop. Return only valid JSON. Never invent dimensions or metrics. If required_metric is present, use exactly that metric name or omit params.metric. Do not abbreviate metric names (for example revenue is not revenue_usd). Use previous results and prefer the strongest valid driver."@,
{
    "You are an analysis planner for FactorLens. Choose exactly one action: analyze_compare, drill_down, or stop. Return only valid JSON. Never invent dimensions or metrics. If required_metric is present, use exactly that metric name or omit params.metric. Do not abbreviate metric names (for example revenue is not revenue_usd). Use previous results and prefer the strongest valid driver."
}

/// What a planner is asked. `payload` is the state of the investigation.
pub fn planner_user_prompt(payload: &str) -> (r: String)
    ensures
        r@
            == "Return ONLY one JSON object (no markdown, no prose).\nRequired keys:\n- action: analyze_compare | drill_down | stop\n- reason: short string\n- params: object (optional for stop) with optional metric, group_by (array), filters (object)\nRules:\n- Use only available_dimensions.\n- For drill_down include non-empty filters.\n- If required_metric is set, params.metric must be exactly that value (or omitted).\n- Do not echo this prompt.\nInput payload:\n"@
            + payload@,
{
    cat2(
        "Return ONLY one JSON object (no markdown, no prose).\nRequired keys:\n- action: analyze_compare | drill_down | stop\n- reason: short string\n- params: object (optional for stop) with optional metric, group_by (array), filters (object)\nRules:\n- Use only available_dimensions.\n- For drill_down include non-empty filters.\n- If required_metric is set, params.metric must be exactly that value (or omitted).\n- Do not echo this prompt.\nInput payload:\n",
        payload,
    )
}

/// What a model is told about a summary.
pub fn summary_system_prompt() -> (r: &'static str)
    ensures
        r@
            == "Summarize investigation findings. Use only provided facts. Do not invent numbers. Use at most 2 decimal places. Do not output commands or code."@,
{
    "Summarize investigation findings. Use only provided facts. Do not invent numbers. Use at most 2 decimal places. Do not output commands or code."
}

/// What a model is asked for a summary. `payload` is the whole investigation.
pub fn summary_user_prompt(payload: &str) -> (r: String)
    ensures
        r@
            == "Provide 2-4 short lines. Keep it concise and grounded. Do not output JSON.\n"@
            + payload@,
{
    cat2(
        "Provide 2-4 short lines. Keep it concise and grounded. Do not output JSON.\n",
        payload,
    )
}

/// The error of two planners that both failed.
pub fn both_planners_failed(primary: &str, local: &str) -> (r: String)
    ensures
        r@ == "primary planner failed: "@ + primary@ + "; local fallback failed: "@ + local@,
{
    cat4("primary planner failed: ", primary, "; local fallback failed: ", local)
}

/// The error of two summaries that both failed.
pub fn both_summaries_failed(primary: &str, local: &str) -> (r: String)
    ensures
        r@ == "primary summary planner failed: "@ + primary@ + "; local fallback failed: "@
            + local@,
{
    cat4("primary summary planner failed: ", primary, "; local fallback failed: ", local)
}

/// The plan that counts, with the planner it comes from: that of the primary
/// planner, else that of the local one. `local` is what the local planner
/// answered, where there is one.
pub fn llm_plan_next_action_with_fallback(
    primary: Result<InvestigationExecAction, String>,
    local: Option<Result<InvestigationExecAction, String>>,
) -> (r: Result<(InvestigationExecAction, &'static str), String>)
    ensures
        match (primary, local) {
            (Ok(a), _) => r is Ok && r->Ok_0.0 == a && r->Ok_0.1@ == "primary"@,
            (Err(_), Some(Ok(a))) => r is Ok && r->Ok_0.0 == a && r->Ok_0.1@ == "local_fallback"@,
            (Err(e), None) => r is Err && r->Err_0@ == e@,
            (Err(e), Some(Err(l))) => r is Err && r->Err_0@ == "primary planner failed: "@ + e@
                + "; local fallback failed: "@ + l@,
        },
{
    match primary {
        Ok(action) => Ok((action, "primary")),
        Err(e) => match local {
            None => Err(e),
            Some(Ok(action)) => Ok((action, "local_fallback")),
            Some(Err(l)) => Err(both_planners_failed(e.as_str(), l.as_str())),
        },
    }
}

/// The summary that counts: that of the primary planner, else that of the
/// local one. `local` is what the local planner answered, where there is one.
pub fn llm_finalize_summary_with_fallback(
    primary: Result<String, String>,
    local: Option<Result<String, String>>,
) -> (r: Result<String, String>)
    ensures
        match (primary, local) {
            (Ok(t), _) => r is Ok && r->Ok_0@ == t@,
            (Err(_), Some(Ok(t))) => r is Ok && r->Ok_0@ == t@,
            (Err(e), None) => r is Err && r->Err_0@ == e@,
            (Err(e), Some(Err(l))) => r is Err && r->Err_0@ == "primary summary planner failed: "@
                + e@ + "; local fallback failed: "@ + l@,
        },
{
    match primary {
        Ok(summary) => Ok(summary),
        Err(e) => match local {
            None => Err(e),
            Some(Ok(summary)) => Ok(summary),
            Some(Err(l)) => Err(both_summaries_failed(e.as_str(), l.as_str())),
        },
    }
}

// ---------------------------------------------------------------------------
// Actions
// ---------------------------------------------------------------------------

/// An action whose reason also says why no planner gave it.
pub open spec fn marked_fallback(a: planner::ActionView, err: Seq<char>) -> planner::ActionView {
    match a {
        planner::ActionView::AnalyzeCompare { group_by, scope, reason } => {
            planner::ActionView::AnalyzeCompare {
                group_by,
                scope,
                reason: reason + " (fallback: "@ + err + ")"@,
            }
        },
        planner::ActionView::DrillDown { group_by, scope, reason } => {
            planner::ActionView::DrillDown {
                group_by,
                scope,
                reason: reason + " (fallback: "@ + err + ")"@,
            }
        },
        planner::ActionView::Stop { reason } => planner::ActionView::Stop {
            reason: reason + " (fallback: "@ + err + ")"@,
        },
    }
}

/// Writes into an action's reason why no planner gave it.
pub fn mark_fallback(action: InvestigationExecAction, err: &str) -> (r: InvestigationExecAction)
    ensures
        r@ == marked_fallback(action@, err@),
{
    match action {
        InvestigationExecAction::AnalyzeCompare { group_by, scope, reason } => {
            InvestigationExecAction::AnalyzeCompare {
                group_by,
                scope,
                reason: cat4(reason.as_str(), " (fallback: ", err, ")"),
            }
        },
        InvestigationExecAction::DrillDown { group_by, scope, reason } => {
            InvestigationExecAction::DrillDown {
                group_by,
                scope,
                reason: cat4(reason.as_str(), " (fallback: ", err, ")"),
            }
        },
        InvestigationExecAction::Stop { reason } => InvestigationExecAction::Stop {
            reason: cat4(reason.as_str(), " (fallback: ", err, ")"),
        },
    }
}

/// A planned search: its steps, its log with an entry for each round, and why
/// it was stopped, if it was.
#[derive(Debug)]
pub struct PlannedSearch {
    pub steps: Vec<InvestigationStep>,
    pub trace: Vec<InvestigationTraceStep>,
    pub stopped: Option<String>,
}

/// The figures of a planned step, as far as they decide whether it counts,
/// with their texts.
#[derive(Debug)]
pub struct StepFigures {
    pub raised_delta: Num,
    pub raised_score: Num,
    pub required_score: Num,
    pub delta_text: String,
    pub score_text: String,
    pub previous_score_text: String,
    pub min_delta_text: String,
    pub min_improvement_text: String,
}

/// Which threshold a planned step misses. The score is compared with the step before.
pub open spec fn planned_verdict(
    args: InvestigateWorkflowArgs,
    mode: InvestigationMode,
    first: bool,
    f: StepFigures,
) -> workflow::Verdict {
    if workflow::asks_for_delta(args, mode) && f.raised_delta.lt(args.min_delta_abs) {
        workflow::Verdict::LowDelta
    } else if Num::zero_spec().lt(args.min_score_improvement) && !first && f.raised_score.lt(
        f.required_score,
    ) {
        workflow::Verdict::LowImprovement
    } else {
        workflow::Verdict::Drill
    }
}

/// The name of an action in the log.
pub open spec fn action_name(a: planner::ActionView) -> Seq<char> {
    match a {
        planner::ActionView::AnalyzeCompare { .. } => "analyze_compare"@,
        planner::ActionView::DrillDown { .. } => "drill_down"@,
        planner::ActionView::Stop { .. } => "stop"@,
    }
}

/// Why a planned step that misses a threshold stops the search.
pub open spec fn missed_reason(v: workflow::Verdict, f: StepFigures) -> Seq<char> {
    if v == workflow::Verdict::LowDelta {
        "no planned step met absolute-delta threshold (min_delta_abs="@ + f.min_delta_text@ + ")"@
    } else {
        "no planned step met score-improvement threshold (min_score_improvement="@
            + f.min_improvement_text@ + ")"@
    }
}

/// What the log says of a planned step that misses a threshold.
pub open spec fn missed_decision(
    v: workflow::Verdict,
    action: Seq<char>,
    f: StepFigures,
) -> Seq<char> {
    if v == workflow::Verdict::LowDelta {
        "planned "@ + action + " did not meet absolute delta threshold (current_abs="@
            + f.delta_text@ + ", required="@ + f.min_delta_text@ + ")"@
    } else {
        "planned "@ + action + " did not improve score enough (prev="@ + f.previous_score_text@
            + ", current="@ + f.score_text@ + ", required +"@ + f.min_improvement_text@ + ")"@
    }
}

/// The entry of the log for a planned step.
pub open spec fn planned_entry(
    depth: usize,
    action: planner::ActionView,
    v: workflow::Verdict,
    f: StepFigures,
) -> TraceView {
    if v == workflow::Verdict::Drill {
        TraceView {
            depth: depth as int,
            action: action_name(action),
            decision: action_reason(action),
            scope: planner::action_scope(action),
            stopping_reason: None,
        }
    } else {
        TraceView {
            depth: depth as int,
            action: "stop"@,
            decision: missed_decision(v, action_name(action), f),
            scope: planner::action_scope(action),
            stopping_reason: Some(missed_reason(v, f)),
        }
    }
}

pub open spec fn action_reason(a: planner::ActionView) -> Seq<char> {
    match a {
        planner::ActionView::AnalyzeCompare { reason, .. } => reason,
        planner::ActionView::DrillDown { reason, .. } => reason,
        planner::ActionView::Stop { reason } => reason,
    }
}

fn push_entry(
    trace: &mut Vec<InvestigationTraceStep>,
    depth: usize,
    action: &str,
    decision: String,
    scope: Vec<(String, String)>,
    stopping_reason: Option<String>,
)
    ensures
        workflow::trace_views(final(trace)@) == workflow::trace_views(old(trace)@).push(
            TraceView {
                depth: depth as int,
                action: action@,
                decision: decision@,
                scope: scope::bindings(scope@),
                stopping_reason: planner::optional_text(stopping_reason),
            },
        ),
{
    let ghost before = workflow::trace_views(trace@);
    trace.push(
        InvestigationTraceStep {
            depth,
            action: action.to_owned(),
            decision,
            scope,
            stopping_reason,
        },
    );
    assert(workflow::trace_views(trace@) =~= before.push(trace@.last()@));
}

/// The entry of the log for a stop.
pub open spec fn stop_entry(
    depth: usize,
    steps: Seq<InvestigationStep>,
    reason: Seq<char>,
) -> TraceView {
    TraceView {
        depth: depth as int,
        action: "stop"@,
        decision: reason,
        scope: if steps.len() > 0 {
            scope::bindings(steps.last().scope@)
        } else {
            Seq::empty()
        },
        stopping_reason: Some(reason),
    }
}

/// The step is the one that an action asks for: along its dimension and within
/// its scope.
pub open spec fn answers_action(step: InvestigationStep, action: planner::ActionView) -> bool {
    match action {
        planner::ActionView::AnalyzeCompare { group_by, scope, .. } => step.dimension@ == group_by
            && scope::bindings(step.scope@) == scope,
        planner::ActionView::DrillDown { group_by, scope, .. } => step.dimension@ == group_by
            && scope::bindings(step.scope@) == scope,
        planner::ActionView::Stop { .. } => false,
    }
}

proof fn lemma_log_grows(before: PlannedSearch, after: PlannedSearch, max_depth: usize)
    requires
        before.is_valid(max_depth),
        before.owed_round(max_depth) is Some,
        after.trace@.len() == before.trace@.len() + 1,
        workflow::trace_views(after.trace@).drop_last() =~= workflow::trace_views(before.trace@),
        workflow::trace_views(after.trace@).last().depth == before.trace@.len(),
        (after.stopped is Some && after.steps@ == before.steps@) || (after.stopped is None
            && after.steps@.len() == before.steps@.len() + 1 && after.steps@.drop_last()
            =~= before.steps@ && scope::bindings(after.steps@.last().scope@)
            == workflow::trace_views(after.trace@).last().scope),
    ensures
        after.is_valid(max_depth),
{
    let n = before.trace@.len() as int;
    let views = workflow::trace_views(after.trace@);
    assert forall|i: int| 0 <= i < n implies workflow::trace_views(before.trace@)[i]
        == views[i] by {
        assert(views.drop_last()[i] == views[i]);
    }
    assert forall|i: int| 0 <= i < after.trace@.len() implies (#[trigger] after.trace@[i]).depth
        == i by {
        assert(views[i] == after.trace@[i]@);
        if i < n {
            assert(workflow::trace_views(before.trace@)[i] == before.trace@[i]@);
        }
    }
    assert forall|i: int| 0 <= i < after.steps@.len() implies scope::bindings(
        (#[trigger] after.steps@[i]).scope@,
    ) == scope::bindings(after.trace@[i].scope@) by {
        assert(views[i] == after.trace@[i]@);
        if i < n {
            assert(workflow::trace_views(before.trace@)[i] == before.trace@[i]@);
            if after.stopped is None {
                assert(after.steps@.drop_last()[i] == after.steps@[i]);
            }
            assert(before.steps@[i] == after.steps@[i]);
        }
    }
}

/// A planned search never has more rounds, nor more steps, than it may go
/// deep. None is owed after the last one or after a stop, and every round
/// leaves one less to be had.
pub proof fn law_planned_rounds_are_bounded(search: PlannedSearch, max_depth: usize)
    requires
        search.is_valid(max_depth),
    ensures
        search.trace@.len() <= max_depth,
        search.steps@.len() <= max_depth,
        search.stopped is Some ==> search.owed_round(max_depth) is None,
        search.trace@.len() == max_depth ==> search.owed_round(max_depth) is None,
        search.owed_round(max_depth) is Some ==> search.owed_round(max_depth)->0 < max_depth,
{
}

impl PlannedSearch {
    /// The search keeps to its depth. Every round but the one that stopped it
    /// has a step, and the entry of the log has the step's scope and the
    /// number of the round.
    pub open spec fn is_valid(self, max_depth: usize) -> bool {
        &&& self.trace@.len() <= max_depth
        &&& self.trace@.len() == self.steps@.len() + (if self.stopped is Some {
            1int
        } else {
            0int
        })
        &&& forall|i: int|
            0 <= i < self.steps@.len() ==> scope::bindings((#[trigger] self.steps@[i]).scope@)
                == scope::bindings(self.trace@[i].scope@)
        &&& forall|i: int|
            0 <= i < self.trace@.len() ==> (#[trigger] self.trace@[i]).depth == i
    }

    /// The round that is owed: the next one, unless the search was stopped or
    /// has had as many as it may have.
    pub open spec fn owed_round(self, max_depth: usize) -> Option<usize> {
        if self.stopped is None && self.trace@.len() < max_depth {
            Some(self.trace@.len() as usize)
        } else {
            None
        }
    }

    /// A search that has not begun.
    pub fn new() -> (r: PlannedSearch)
        ensures
            r.steps@.len() == 0,
            r.trace@.len() == 0,
            r.stopped is None,
            forall|max_depth: usize| #[trigger] r.is_valid(max_depth),
    {
        PlannedSearch { steps: Vec::new(), trace: Vec::new(), stopped: None }
    }

    /// The round that is owed, if another one is.
    pub fn next_round(&self, args: &InvestigateWorkflowArgs) -> (r: Option<usize>)
        requires
            self.is_valid(args.max_depth),
        ensures
            r == self.owed_round(args.max_depth),
    {
        if self.stopped.is_none() && self.trace.len() < args.max_depth {
            Some(self.trace.len())
        } else {
            None
        }
    }

    /// Why the search ended: what stopped it, or else its depth.
    pub fn stop_reason(&self, args: &InvestigateWorkflowArgs) -> (r: String)
        ensures
            r@ == (match self.stopped {
                Some(reason) => reason@,
                None => workflow::depth_message(args.max_depth),
            }),
    {
        match &self.stopped {
            Some(reason) => reason.clone(),
            None => depth_reached(args),
        }
    }

    /// Carries out a stop.
    pub fn take_stop(&mut self, args: &InvestigateWorkflowArgs, reason: &str)
        requires
            old(self).is_valid(args.max_depth),
            old(self).owed_round(args.max_depth) is Some,
        ensures
            final(self).is_valid(args.max_depth),
            final(self).steps@ == old(self).steps@,
            planner::optional_text(final(self).stopped) == Some(reason@),
            workflow::trace_views(final(self).trace@) == workflow::trace_views(
                old(self).trace@,
            ).push(stop_entry(old(self).trace@.len() as usize, old(self).steps@, reason@)),
    {
        let depth: usize = self.trace.len();
        let n: usize = self.steps.len();
        let scope: Vec<(String, String)> = if n > 0 {
            copy_scope(self.steps[n - 1].scope.as_slice())
        } else {
            Vec::new()
        };
        assert(n == 0 ==> scope::bindings(scope@) =~= Seq::empty());
        push_entry(
            &mut self.trace,
            depth,
            "stop",
            reason.to_owned(),
            scope,
            Some(reason.to_owned()),
        );
        self.stopped = Some(reason.to_owned());
        proof {
            lemma_log_grows(*old(self), *self, args.max_depth);
        }
    }

    /// Takes the step of an action that compares or descends. The step joins
    /// the search where it meets the thresholds; else the search stops, and
    /// the result says why.
    pub fn take_step(
        &mut self,
        args: &InvestigateWorkflowArgs,
        mode: InvestigationMode,
        action: InvestigationExecAction,
        step: InvestigationStep,
        figures: &StepFigures,
    ) -> (r: Option<String>)
        requires
            old(self).is_valid(args.max_depth),
            old(self).owed_round(args.max_depth) is Some,
            answers_action(step, action@),
        ensures
            final(self).is_valid(args.max_depth),
            planner::optional_text(final(self).stopped) == planner::optional_text(r),
            ({
                let v = planned_verdict(*args, mode, old(self).steps@.len() == 0, *figures);
                &&& workflow::trace_views(final(self).trace@) == workflow::trace_views(
                    old(self).trace@,
                ).push(planned_entry(old(self).trace@.len() as usize, action@, v, *figures))
                &&& v == workflow::Verdict::Drill ==> r is None && final(self).steps@ == old(
                    self,
                ).steps@.push(step)
                &&& v != workflow::Verdict::Drill ==> r is Some && r->0@ == missed_reason(
                    v,
                    *figures,
                ) && final(self).steps@ == old(self).steps@
            }),
    {
        let depth: usize = self.trace.len();
        let first: bool = self.steps.len() == 0;
        let v = if mode != InvestigationMode::ConcentrationDrivers && Num::zero().less(
            args.min_delta_abs,
        ) && figures.raised_delta.less(args.min_delta_abs) {
            workflow::Verdict::LowDelta
        } else if Num::zero().less(args.min_score_improvement) && !first
            && figures.raised_score.less(figures.required_score) {
            workflow::Verdict::LowImprovement
        } else {
            workflow::Verdict::Drill
        };
        assert(v == planned_verdict(*args, mode, first, *figures));
        let (name, scope, reason) = match action {
            InvestigationExecAction::AnalyzeCompare { group_by: _, scope, reason } => (
                "analyze_compare",
                scope,
                reason,
            ),
            InvestigationExecAction::DrillDown { group_by: _, scope, reason } => (
                "drill_down",
                scope,
                reason,
            ),
            InvestigationExecAction::Stop { reason } => {
                let none: Vec<(String, String)> = Vec::new();
                ("stop", none, reason)
            },
        };
        match v {
            workflow::Verdict::Drill => {
                push_entry(&mut self.trace, depth, name, reason, scope, None);
                self.steps.push(step);
                proof {
                    lemma_log_grows(*old(self), *self, args.max_depth);
                }
                None
            },
            workflow::Verdict::LowDelta => {
                let why = cat3(
                    "no planned step met absolute-delta threshold (min_delta_abs=",
                    figures.min_delta_text.as_str(),
                    ")",
                );
                let mut decision = cat5(
                    "planned ",
                    name,
                    " did not meet absolute delta threshold (current_abs=",
                    figures.delta_text.as_str(),
                    ", required=",
                );
                decision.append(figures.min_delta_text.as_str());
                decision.append(")");
                push_entry(&mut self.trace, depth, "stop", decision, scope, Some(why.clone()));
                self.stopped = Some(why.clone());
                proof {
                    lemma_log_grows(*old(self), *self, args.max_depth);
                }
                Some(why)
            },
            workflow::Verdict::LowImprovement => {
                let why = cat3(
                    "no planned step met score-improvement threshold (min_score_improvement=",
                    figures.min_improvement_text.as_str(),
                    ")",
                );
                let mut decision = cat5(
                    "planned ",
                    name,
                    " did not improve score enough (prev=",
                    figures.previous_score_text.as_str(),
                    ", current=",
                );
                decision.append(figures.score_text.as_str());
                decision.append(", required +");
                decision.append(figures.min_improvement_text.as_str());
                decision.append(")");
                push_entry(&mut self.trace, depth, "stop", decision, scope, Some(why.clone()));
                self.stopped = Some(why.clone());
                proof {
                    lemma_log_grows(*old(self), *self, args.max_depth);
                }
                Some(why)
            },
        }
    }
}

/// Why a planned search ended that nothing stopped.
pub fn depth_reached(args: &InvestigateWorkflowArgs) -> (r: String)
    ensures
        r@ == workflow::depth_message(args.max_depth),
{
    cat2("reached max depth ", count_text(args.max_depth).as_str())
}

// ---------------------------------------------------------------------------
// Summaries
// ---------------------------------------------------------------------------

/// What becomes of a model's summary.
pub open spec fn accepted_summary(cleaned: Seq<char>, numbers_grounded: bool) -> Result<
    Seq<char>,
    Seq<char>,
> {
    if cleaned.len() == 0 {
        Err("llm final summary was empty"@)
    } else if !(answers::summary_words_usable(cleaned) && numbers_grounded) {
        Err("llm final summary failed quality checks"@)
    } else {
        Ok(cleaned)
    }
}

/// Checks a cleaned summary. `numbers_grounded` says whether every number that
/// it mentions is close to a figure of the investigation.
pub fn accept_summary(cleaned: String, numbers_grounded: bool) -> (r: Result<String, String>)
    ensures
        crate::artifacts::text_result(r) == accepted_summary(cleaned@, numbers_grounded),
{
    if cleaned.as_str().is_empty() {
        return Err("llm final summary was empty".to_owned());
    }
    if !llm_summary_is_usable(cleaned.as_str(), numbers_grounded) {
        return Err("llm final summary failed quality checks".to_owned());
    }
    Ok(cleaned)
}

/// The summary of an investigation where no model gave one. The changes of the
/// strongest segment come as texts with signs.
pub open spec fn plain_summary(
    steps: Seq<InvestigationStep>,
    delta: Seq<char>,
    share: Seq<char>,
    stop_reason: Seq<char>,
    next: Seq<char>,
) -> Seq<char> {
    let head = if steps.len() > 0 && steps[0].movers@.len() > 0 {
        "Largest shift is '"@ + steps[0].movers@[0].segment@ + "' ("@ + delta + " delta metric, "@
            + share + " pp share).\nStop reason: "@
    } else {
        "No significant mover was identified.\nStop reason: "@
    };
    head + stop_reason + ".\nNext: "@ + next
}

/// The summary of an investigation where no model gave one.
pub fn deterministic_summary_from_steps(
    steps: &Vec<InvestigationStep>,
    delta: &str,
    share: &str,
    stop_reason: &str,
    recommended_next_question: &str,
) -> (r: String)
    ensures
        r@ == plain_summary(steps@, delta@, share@, stop_reason@, recommended_next_question@),
{
    let head = if steps.len() > 0 && steps[0].movers.len() > 0 {
        let mut h = cat5(
            "Largest shift is '",
            steps[0].movers[0].segment.as_str(),
            "' (",
            delta,
            " delta metric, ",
        );
        h.append(share);
        h.append(" pp share).\nStop reason: ");
        h
    } else {
        "No significant mover was identified.\nStop reason: ".to_owned()
    };
    cat4(head.as_str(), stop_reason, ".\nNext: ", recommended_next_question)
}

/// A figure that a summary may mention.
#[derive(Clone, Debug)]
pub enum Figure {
    Count(u64),
    Value(Num),
    Written(String),
}

/// A figure in views.
pub enum FigureView {
    Count(int),
    Value(Num),
    Written(Seq<char>),
}

impl View for Figure {
    type V = FigureView;

    open spec fn view(&self) -> FigureView {
        match self {
            Figure::Count(n) => FigureView::Count(*n as int),
            Figure::Value(x) => FigureView::Value(*x),
            Figure::Written(s) => FigureView::Written(s@),
        }
    }
}

pub open spec fn figure_views(s: Seq<Figure>) -> Seq<FigureView> {
    Seq::new(s.len(), |i: int| s[i]@)
}

/// The figures of the first `n` movers.
pub open spec fn mover_figures(
    movers: Seq<crate::investigation::InvestigationMover>,
    n: int,
) -> Seq<FigureView>
    decreases n,
{
    if n <= 0 {
        Seq::empty()
    } else {
        let m = movers[n - 1];
        mover_figures(movers, n - 1).push(FigureView::Count(m.base_records as int)).push(
            FigureView::Count(m.new_records as int),
        ).push(FigureView::Value(m.base_share_pct)).push(FigureView::Value(m.new_share_pct)).push(
            FigureView::Value(m.delta_share_pp),
        ).push(FigureView::Value(m.base_primary_metric_value)).push(
            FigureView::Value(m.new_primary_metric_value),
        ).push(FigureView::Value(m.delta_primary_metric_value))
    }
}

/// The figures of the first `n` steps.
pub open spec fn step_figures(steps: Seq<InvestigationStep>, n: int) -> Seq<FigureView>
    decreases n,
{
    if n <= 0 {
        Seq::empty()
    } else {
        let s = steps[n - 1];
        step_figures(steps, n - 1).push(FigureView::Count(s.depth as int)).push(
            FigureView::Count(s.base_records as int),
        ).push(FigureView::Count(s.new_records as int)).push(
            FigureView::Count(s.segment_count as int),
        ).push(FigureView::Value(s.top5_concentration_base_pct)).push(
            FigureView::Value(s.top5_concentration_new_pct),
        ).push(FigureView::Value(s.top5_concentration_delta_pp)).push(
            FigureView::Value(s.top1_concentration_base_pct),
        ).push(FigureView::Value(s.top1_concentration_new_pct)).push(
            FigureView::Value(s.top1_concentration_delta_pp),
        ) + mover_figures(s.movers@, s.movers@.len() as int)
    }
}

/// The figures that a summary may mention: those of the steps, those written
/// in the stop reason, and one and five.
pub open spec fn allowed_figures(steps: Seq<InvestigationStep>, stop_reason: Seq<char>) -> Seq<
    FigureView,
> {
    (step_figures(steps, steps.len() as int) + numeric::numbers_from(stop_reason, 0).map_values(
        |s: Seq<char>| FigureView::Written(s),
    )).push(FigureView::Count(1)).push(FigureView::Count(5))
}

fn add_figure(out: &mut Vec<Figure>, f: Figure)
    ensures
        figure_views(final(out)@) == figure_views(old(out)@).push(f@),
{
    let ghost before = figure_views(out@);
    out.push(f);
    assert(figure_views(out@) =~= before.push(f@));
}

/// The figures that a summary may mention.
#[verifier::loop_isolation(false)]
pub fn collect_allowed_summary_numbers(steps: &Vec<InvestigationStep>, stop_reason: &str) -> (r: Vec<
    Figure,
>)
    ensures
        figure_views(r@) == allowed_figures(steps@, stop_reason@),
{
    let mut out: Vec<Figure> = Vec::new();
    let mut i: usize = 0;
    assert(figure_views(out@) =~= Seq::empty());
    while i < steps.len()
        invariant
            i <= steps.len(),
            figure_views(out@) == step_figures(steps@, i as int),
        decreases steps.len() - i,
    {
        let s = &steps[i];
        add_figure(&mut out, Figure::Count(s.depth as u64));
        add_figure(&mut out, Figure::Count(s.base_records));
        add_figure(&mut out, Figure::Count(s.new_records));
        add_figure(&mut out, Figure::Count(s.segment_count as u64));
        add_figure(&mut out, Figure::Value(s.top5_concentration_base_pct));
        add_figure(&mut out, Figure::Value(s.top5_concentration_new_pct));
        add_figure(&mut out, Figure::Value(s.top5_concentration_delta_pp));
        add_figure(&mut out, Figure::Value(s.top1_concentration_base_pct));
        add_figure(&mut out, Figure::Value(s.top1_concentration_new_pct));
        add_figure(&mut out, Figure::Value(s.top1_concentration_delta_pp));
        let ghost head = figure_views(out@);
        let mut k: usize = 0;
        assert(head + mover_figures(s.movers@, 0) =~= head);
        while k < s.movers.len()
            invariant
                k <= s.movers.len(),
                figure_views(out@) == head + mover_figures(s.movers@, k as int),
            decreases s.movers.len() - k,
        {
            let m = &s.movers[k];
            add_figure(&mut out, Figure::Count(m.base_records));
            add_figure(&mut out, Figure::Count(m.new_records));
            add_figure(&mut out, Figure::Value(m.base_share_pct));
            add_figure(&mut out, Figure::Value(m.new_share_pct));
            add_figure(&mut out, Figure::Value(m.delta_share_pp));
            add_figure(&mut out, Figure::Value(m.base_primary_metric_value));
            add_figure(&mut out, Figure::Value(m.new_primary_metric_value));
            add_figure(&mut out, Figure::Value(m.delta_primary_metric_value));
            k += 1;
            assert(figure_views(out@) =~= head + mover_figures(s.movers@, k as int));
        }
        i += 1;
    }
    let ghost head = figure_views(out@);
    let numbers = extract_numeric_texts(stop_reason);
    let ghost written = numeric::numbers_from(stop_reason@, 0).map_values(
        |s: Seq<char>| FigureView::Written(s),
    );
    let mut j: usize = 0;
    assert(head + written.take(0) =~= head);
    while j < numbers.len()
        invariant
            j <= numbers.len(),
            figure_views(out@) == head + written.take(j as int),
        decreases numbers.len() - j,
    {
        assert(text::views(numbers@)[j as int] == numbers@[j as int]@);
        add_figure(&mut out, Figure::Written(numbers[j].clone()));
        assert(figure_views(out@) =~= head + written.take(j + 1));
        j += 1;
    }
    assert(written.take(written.len() as int) =~= written);
    add_figure(&mut out, Figure::Count(1));
    add_figure(&mut out, Figure::Count(5));
    out
}

/// One of the flags is up.
pub open spec fn some_flag(flags: Seq<bool>) -> bool {
    exists|k: int| 0 <= k < flags.len() && #[trigger] flags[k]
}

fn any_flag(flags: &Vec<bool>) -> (r: bool)
    ensures
        r == some_flag(flags@),
{
    let mut k: usize = 0;
    while k < flags.len()
        invariant
            k <= flags.len(),
            forall|m: int| 0 <= m < k ==> !(#[trigger] flags@[m]),
        decreases flags.len() - k,
    {
        if flags[k] {
            assert(flags@[k as int]);
            return true;
        }
        k += 1;
    }
    false
}

/// Every number is close to some figure; where there is no figure at all,
/// nothing is held against the numbers. `close[i]` says which figures number
/// `i` is close to.
pub open spec fn all_grounded(close: Seq<Vec<bool>>, figures: int) -> bool {
    figures == 0 || forall|i: int| 0 <= i < close.len() ==> some_flag((#[trigger] close[i])@)
}

/// Whether every number is close to some figure.
pub fn summary_numbers_are_grounded(close: &Vec<Vec<bool>>, figures: usize) -> (r: bool)
    ensures
        r == all_grounded(close@, figures as int),
{
    if figures == 0 {
        return true;
    }
    let mut i: usize = 0;
    while i < close.len()
        invariant
            i <= close.len(),
            figures != 0,
            forall|j: int| 0 <= j < i ==> some_flag((#[trigger] close@[j])@),
        decreases close.len() - i,
    {
        if !any_flag(&close[i]) {
            assert(!some_flag(close@[i as int]@));
            return false;
        }
        i += 1;
    }
    true
}

/// A summary as bullets, without its empty lines.
pub open spec fn summary_bullets(lines: Seq<Seq<char>>, n: int) -> Seq<Seq<char>>
    decreases n,
{
    if n <= 0 {
        Seq::empty()
    } else {
        let front = summary_bullets(lines, n - 1);
        let t = text::trim(lines[n - 1]);
        if t.len() > 0 {
            front.push("- "@ + t)
        } else {
            front
        }
    }
}

/// The section of a report that holds the summary.
#[verifier::loop_isolation(false)]
pub fn render_final_summary(summary: &str) -> (r: String)
    ensures
        r@ == report::page(
            seq![""@, "## Final summary"@, ""@] + summary_bullets(
                scan::lines(summary@),
                scan::lines(summary@).len() as int,
            ),
        ),
{
    let ghost all = scan::lines(summary@);
    let mut out: Vec<String> = Vec::new();
    out.push("".to_owned());
    out.push("## Final summary".to_owned());
    out.push("".to_owned());
    let ghost head = seq![""@, "## Final summary"@, ""@];
    assert(text::views(out@) =~= head + summary_bullets(all, 0));
    let lines = lines_of(summary);
    let mut i: usize = 0;
    while i < lines.len()
        invariant
            i <= lines.len(),
            text::views(out@) == head + summary_bullets(all, i as int),
        decreases lines.len() - i,
    {
        assert(all[i as int] == lines@[i as int]@);
        let t = trimmed(lines[i].as_str());
        if !t.as_str().is_empty() {
            report::say(&mut out, cat2("- ", t.as_str()));
        }
        i += 1;
        assert(text::views(out@) =~= head + summary_bullets(all, i as int));
    }
    report::write_page(&out)
}

/// A planned step is kept exactly where it passes both thresholds: the change of
/// its metric, unless concentration is asked for or the threshold is not above
/// zero, and the gain of its score, which is not asked of the first step nor
/// where the threshold is not above zero.
pub proof fn law_planned_steps_are_judged_by_both_thresholds(
    args: InvestigateWorkflowArgs,
    mode: InvestigationMode,
    first: bool,
    f: StepFigures,
)
    requires
        !args.min_delta_abs.is_nan() && !args.min_score_improvement.is_nan(),
        !f.raised_delta.is_nan() && !f.raised_score.is_nan() && !f.required_score.is_nan(),
    ensures
        ({
            let enough_delta = mode == InvestigationMode::ConcentrationDrivers
                || args.min_delta_abs.rank() <= 0 || args.min_delta_abs.rank()
                <= f.raised_delta.rank();
            let enough_gain = first || args.min_score_improvement.rank() <= 0
                || f.required_score.rank() <= f.raised_score.rank();
            let v = planned_verdict(args, mode, first, f);
            &&& v == workflow::Verdict::Drill <==> enough_delta && enough_gain
            &&& v == workflow::Verdict::LowDelta <==> !enough_delta
            &&& v == workflow::Verdict::LowImprovement <==> enough_delta && !enough_gain
        }),
{
}

proof fn lemma_mover_figures(
    movers: Seq<crate::investigation::InvestigationMover>,
    n: int,
    i: int,
)
    requires
        0 <= i < n <= movers.len(),
    ensures
        ({
            let f = mover_figures(movers, n);
            let m = movers[i];
            &&& f.contains(FigureView::Count(m.base_records as int))
            &&& f.contains(FigureView::Count(m.new_records as int))
            &&& f.contains(FigureView::Value(m.base_share_pct))
            &&& f.contains(FigureView::Value(m.new_share_pct))
            &&& f.contains(FigureView::Value(m.delta_share_pp))
            &&& f.contains(FigureView::Value(m.base_primary_metric_value))
            &&& f.contains(FigureView::Value(m.new_primary_metric_value))
            &&& f.contains(FigureView::Value(m.delta_primary_metric_value))
        }),
    decreases n,
{
    let f = mover_figures(movers, n);
    let front = mover_figures(movers, n - 1);
    let k = front.len() as int;
    if i < n - 1 {
        lemma_mover_figures(movers, n - 1, i);
        assert forall|x: FigureView| #[trigger] front.contains(x) implies f.contains(x) by {
            let j = choose|j: int| 0 <= j < front.len() && front[j] == x;
            assert(f[j] == x);
        }
        assert(front.contains(FigureView::Count(movers[i].base_records as int)));
    } else {
        assert(f[k] == FigureView::Count(movers[i].base_records as int));
        assert(f[k + 1] == FigureView::Count(movers[i].new_records as int));
        assert(f[k + 2] == FigureView::Value(movers[i].base_share_pct));
        assert(f[k + 3] == FigureView::Value(movers[i].new_share_pct));
        assert(f[k + 4] == FigureView::Value(movers[i].delta_share_pp));
        assert(f[k + 5] == FigureView::Value(movers[i].base_primary_metric_value));
        assert(f[k + 6] == FigureView::Value(movers[i].new_primary_metric_value));
        assert(f[k + 7] == FigureView::Value(movers[i].delta_primary_metric_value));
    }
}

proof fn lemma_step_figures(steps: Seq<InvestigationStep>, n: int, i: int, x: FigureView)
    requires
        0 <= i < n <= steps.len(),
        is_figure_of(steps[i], x),
    ensures
        step_figures(steps, n).contains(x),
    decreases n,
{
    let all = step_figures(steps, n);
    let front = step_figures(steps, n - 1);
    let k = front.len() as int;
    if i < n - 1 {
        lemma_step_figures(steps, n - 1, i, x);
        let j = choose|j: int| 0 <= j < front.len() && front[j] == x;
        assert(all[j] == x);
    } else {
        let s = steps[i];
        assert(all[k] == FigureView::Count(s.depth as int));
        assert(all[k + 1] == FigureView::Count(s.base_records as int));
        assert(all[k + 2] == FigureView::Count(s.new_records as int));
        assert(all[k + 3] == FigureView::Count(s.segment_count as int));
        assert(all[k + 4] == FigureView::Value(s.top5_concentration_base_pct));
        assert(all[k + 5] == FigureView::Value(s.top5_concentration_new_pct));
        assert(all[k + 6] == FigureView::Value(s.top5_concentration_delta_pp));
        assert(all[k + 7] == FigureView::Value(s.top1_concentration_base_pct));
        assert(all[k + 8] == FigureView::Value(s.top1_concentration_new_pct));
        assert(all[k + 9] == FigureView::Value(s.top1_concentration_delta_pp));
        let told = mover_figures(s.movers@, s.movers@.len() as int);
        assert forall|y: FigureView| #[trigger] told.contains(y) implies all.contains(y) by {
            let j = choose|j: int| 0 <= j < told.len() && told[j] == y;
            assert(all[k + 10 + j] == y);
        }
        if exists|m: int| 0 <= m < s.movers@.len() && is_figure_of_mover(#[trigger] s.movers@[m], x) {
            let m = choose|m: int|
                0 <= m < s.movers@.len() && is_figure_of_mover(#[trigger] s.movers@[m], x);
            lemma_mover_figures(s.movers@, s.movers@.len() as int, m);
            assert(told.contains(x));
        }
    }
}

/// A figure is one of a mover's records, shares and values.
pub open spec fn is_figure_of_mover(
    m: crate::investigation::InvestigationMover,
    x: FigureView,
) -> bool {
    match x {
        FigureView::Count(n) => n == m.base_records || n == m.new_records,
        FigureView::Value(v) => v == m.base_share_pct || v == m.new_share_pct || v
            == m.delta_share_pp || v == m.base_primary_metric_value || v
            == m.new_primary_metric_value || v == m.delta_primary_metric_value,
        FigureView::Written(_) => false,
    }
}

/// A figure is one of a step's own or of one of its movers.
pub open spec fn is_figure_of(s: InvestigationStep, x: FigureView) -> bool {
    (match x {
        FigureView::Count(n) => n == s.depth || n == s.base_records || n == s.new_records || n
            == s.segment_count,
        FigureView::Value(v) => v == s.top5_concentration_base_pct || v
            == s.top5_concentration_new_pct || v == s.top5_concentration_delta_pp || v
            == s.top1_concentration_base_pct || v == s.top1_concentration_new_pct || v
            == s.top1_concentration_delta_pp,
        FigureView::Written(_) => false,
    }) || exists|m: int| 0 <= m < s.movers@.len() && is_figure_of_mover(#[trigger] s.movers@[m], x)
}

/// A summary may tell every figure of every step and of its movers.
pub proof fn law_figures_of_the_steps_may_be_told(
    steps: Seq<InvestigationStep>,
    stop_reason: Seq<char>,
    i: int,
    x: FigureView,
)
    requires
        0 <= i < steps.len(),
        is_figure_of(steps[i], x),
    ensures
        allowed_figures(steps, stop_reason).contains(x),
{
    let told = step_figures(steps, steps.len() as int);
    let all = allowed_figures(steps, stop_reason);
    lemma_step_figures(steps, steps.len() as int, i, x);
    let j = choose|j: int| 0 <= j < told.len() && told[j] == x;
    assert(all[j] == x);
}

/// A setting is the first one that is filled, without the space around it.
pub proof fn law_the_first_filled_setting_counts(first: Seq<char>, second: Seq<char>)
    ensures
        !text::is_blank(first) ==> filled_setting(Some(first), Some(second)) == Some(
            text::trim(first),
        ),
        text::is_blank(first) && !text::is_blank(second) ==> filled_setting(
            Some(first),
            Some(second),
        ) == Some(text::trim(second)),
        text::is_blank(first) && text::is_blank(second) ==> filled_setting(
            Some(first),
            Some(second),
        ) is None,
        filled_setting(None, Some(second)) == filled_setting(Some(second), None),
{
}

/// The trace tells every round: a step that is kept with its action, one that is
/// not as a stop with its reason; either way at its depth and in its scope.
pub proof fn law_rounds_are_told_with_their_verdict(
    depth: usize,
    action: planner::ActionView,
    v: workflow::Verdict,
    f: StepFigures,
)
    ensures
        ({
            let e = planned_entry(depth, action, v, f);
            &&& e.depth == depth && e.scope == planner::action_scope(action)
            &&& e.stopping_reason is None <==> v == workflow::Verdict::Drill
            &&& v != workflow::Verdict::Drill ==> e.action == "stop"@
            &&& v == workflow::Verdict::Drill && action is DrillDown ==> e.action == "drill_down"@
        }),
{
}

/// The summary is told line by line: every filled line as one bullet, in order,
/// and no other.
pub proof fn law_filled_lines_are_told_as_bullets(lines: Seq<Seq<char>>, n: int)
    requires
        0 <= n <= lines.len(),
    ensures
        forall|i: int|
            0 <= i < n && !text::is_blank(#[trigger] lines[i]) ==> summary_bullets(
                lines,
                n,
            ).contains("- "@ + text::trim(lines[i])),
        summary_bullets(lines, n).len() <= n,
        (forall|i: int| 0 <= i < n ==> text::is_blank(#[trigger] lines[i])) ==> summary_bullets(
            lines,
            n,
        ).len() == 0,
    decreases n,
{
    if n > 0 {
        law_filled_lines_are_told_as_bullets(lines, n - 1);
        let front = summary_bullets(lines, n - 1);
        let all = summary_bullets(lines, n);
        assert forall|i: int| 0 <= i < n && !text::is_blank(#[trigger] lines[i]) implies all.contains(
            "- "@ + text::trim(lines[i]),
        ) by {
            let x = "- "@ + text::trim(lines[i]);
            if i < n - 1 {
                assert(front.contains(x));
                let k = choose|k: int| 0 <= k < front.len() && front[k] == x;
                assert(all[k] == x);
            } else {
                assert(all[all.len() - 1] == x);
            }
        }
    }
}

/// A summary is accepted exactly where it says something, in usable words and
/// with grounded numbers; it is then told as it is.
pub proof fn law_summaries_have_to_be_usable(cleaned: Seq<char>, numbers_grounded: bool)
    ensures
        accepted_summary(cleaned, numbers_grounded) is Ok <==> cleaned.len() > 0
            && answers::summary_words_usable(cleaned) && numbers_grounded,
        accepted_summary(cleaned, numbers_grounded) is Ok ==> accepted_summary(
            cleaned,
            numbers_grounded,
        ) == Ok::<Seq<char>, Seq<char>>(cleaned),
{
}

} // verus!
