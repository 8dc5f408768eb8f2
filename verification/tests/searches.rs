//! Searches through the dimensions of a change, by fixed rules and by plan.

use factorlens::args::{
    BackendArg, InvestigateInputKind, InvestigateOutputFormat, InvestigateWorkflowArgs,
    InvestigationMode, InvestigationPlanner, PostgresSslMode,
};
use factorlens::branches::{
    build_branch_summary_rows, build_investigation_branch_graph, draw_branch_graph,
};
use factorlens::drill::{
    choose_next_dimension, deterministic_fallback_action, identify_major_global_changes,
    major_change_dimensions, major_change_limit_for_dimensions, remaining_drill_dimensions,
    top_step_delta_abs, top_step_score, used_dimensions_for_step,
};
use factorlens::findings::{
    largest_movers, render_investigation_workflow_markdown, BranchTexts, ChangeLine, MoverLine,
    PageTexts, ShareLine, ShareTexts, StepTexts, TopTexts,
};
use factorlens::investigation::{
    InvestigationMajorChange, InvestigationMover, InvestigationStep,
};
use factorlens::num::Num;
use factorlens::planned::{
    accept_summary, both_planners_failed, both_summaries_failed, depth_reached,
    llm_finalize_summary_with_fallback, llm_plan_next_action_with_fallback,
    deterministic_summary_from_steps, local_fallback_planner_model_name, mark_fallback,
    planner_user_prompt, render_final_summary, resolve_planner_model, summary_user_prompt,
    PlannedSearch, StepFigures,
};
use factorlens::planner::{InvestigationExecAction, LlmPlannerAction, LlmPlannerParams};
use factorlens::proposals::{
    choose_planner_action, no_valid_action_message, parse_llm_planner_actions,
};
use factorlens::workflow::{
    check_question, check_search, check_search_options, close_trace, start_search, Closeness,
    DrillSearch, Finding, Rivalry, ThresholdTexts, Verdict,
};

fn text(s: &str) -> String {
    s.to_string()
}

fn names(xs: &[&str]) -> Vec<String> {
    xs.iter().map(|x| text(x)).collect()
}

fn pairs(xs: &[(&str, &str)]) -> Vec<(String, String)> {
    xs.iter().map(|(k, v)| (text(k), text(v))).collect()
}

fn num(x: f64) -> Num {
    Num { bits: x.to_bits() }
}

fn float(n: Num) -> f64 {
    f64::from_bits(n.bits)
}

fn options() -> InvestigateWorkflowArgs {
    InvestigateWorkflowArgs {
        question: text("why did revenue change"),
        mode: None,
        config: None,
        profile: None,
        profile_config: None,
        base: Some(text("base.csv")),
        new: Some(text("new.csv")),
        postgres_url: None,
        postgres_ssl_mode: PostgresSslMode::Prefer,
        postgres_ca_file: None,
        query: None,
        query_file: None,
        metric: Some(text("revenue")),
        date_column: None,
        time_grain: None,
        period: None,
        anchor_date: None,
        current_start: None,
        current_end: None,
        previous_start: None,
        previous_end: None,
        dimensions: names(&["region"]),
        drill_fields: names(&["channel", "tier"]),
        max_depth: 2,
        max_branches: 3,
        min_contribution: num(5.0),
        min_delta_abs: num(0.0),
        min_score_improvement: num(0.0),
        min_slice_rows: 5,
        top_movers: 12,
        planner: InvestigationPlanner::Deterministic,
        planner_backend: BackendArg::Local,
        planner_model: None,
        verbose: false,
        trace: false,
        output_format: InvestigateOutputFormat::Both,
        out: None,
    }
}

fn mover(segment: &str, base: f64, new: f64) -> InvestigationMover {
    InvestigationMover {
        segment: text(segment),
        base_records: 50,
        new_records: 40,
        base_share_pct: num(20.0),
        new_share_pct: num(18.0),
        delta_share_pp: num(-2.0),
        base_primary_metric_value: num(base),
        new_primary_metric_value: num(new),
        delta_primary_metric_value: num(new - base),
    }
}

fn step(
    dimension: &str,
    scope: &[(&str, &str)],
    movers: Vec<InvestigationMover>,
) -> InvestigationStep {
    InvestigationStep {
        depth: scope.len(),
        dimension: text(dimension),
        scope: pairs(scope),
        primary_metric: text("revenue"),
        base_records: 100,
        new_records: 90,
        segment_count: movers.len(),
        top5_concentration_base_pct: num(100.0),
        top5_concentration_new_pct: num(100.0),
        top5_concentration_delta_pp: num(0.0),
        top1_concentration_base_pct: num(60.0),
        top1_concentration_new_pct: num(55.0),
        top1_concentration_delta_pp: num(-5.0),
        movers,
    }
}

fn root() -> InvestigationStep {
    step(
        "region",
        &[],
        vec![mover("West", 100.0, 50.0), mover("East", 80.0, 78.0)],
    )
}

fn raised(search: &DrillSearch) -> Vec<Vec<Num>> {
    search
        .frontier
        .iter()
        .map(|i| {
            search.steps[*i]
                .movers
                .iter()
                .map(|m| num(float(m.delta_primary_metric_value).abs() + f64::EPSILON))
                .collect()
        })
        .collect()
}

fn thresholds() -> ThresholdTexts {
    ThresholdTexts {
        min_delta_abs: text("D"),
        min_score_improvement: text("S"),
        min_contribution: text("5.00"),
    }
}

const CHANGE: InvestigationMode = InvestigationMode::ChangeDrivers;
const TABLES: InvestigateInputKind = InvestigateInputKind::CsvDatasets;

/// What the two dimensions that are left show within the west.
fn finding(channel: f64, tier: f64, scope: &[(&str, &str)]) -> Finding {
    let below = |a: f64, b: f64| {
        if a > b {
            Closeness::Above
        } else if a == b {
            Closeness::Tied
        } else {
            Closeness::Below
        }
    };
    let r = below(tier, channel);
    Finding {
        steps: vec![
            step("channel", scope, vec![mover("Direct", channel, 0.0)]),
            step("tier", scope, vec![mover("Gold", tier, 0.0)]),
        ],
        rivals: vec![
            vec![],
            vec![Rivalry {
                gain: r,
                delta: r,
                score: r,
            }],
        ],
        raised_deltas: vec![num(channel), num(tier)],
        raised_scores: vec![num(channel), num(tier)],
        required_score: num(50.0),
        delta_text: text("-50.00"),
        score_text: text("50.00"),
    }
}

#[test]
fn the_search_descends_into_the_strongest_segment() {
    let args = options();
    let mut search = start_search(root(), "region");
    assert_eq!(
        search.trace[0].decision,
        "ran base/new comparison grouped by region"
    );
    let changes = raised(&search);
    assert_eq!(
        search.begin_level(&args, CHANGE, TABLES, &names(&["channel", "tier"]), &changes),
        None
    );
    assert_eq!(search.probes.len(), 1);
    assert_eq!(search.probes[0].mover.segment, "West");
    assert_eq!(search.probes[0].scope, pairs(&[("region", "West")]));
    assert_eq!(search.probes[0].dimensions, names(&["channel", "tier"]));
    let verdict = search.take_finding(&args, CHANGE, finding(30.0, 45.0, &[("region", "West")]));
    assert_eq!(verdict, Verdict::Drill);
    assert_eq!(search.steps.len(), 2);
    assert_eq!(search.steps[1].dimension, "tier");
    assert_eq!(
        search.trace[1].decision,
        "selected region='West' (delta revenue -50.00, score 50.00) and drilled by tier"
    );
    assert_eq!(search.end_level(&args, &thresholds()), None);
    assert_eq!(search.depth, 2);
    let changes = raised(&search);
    let stop = search
        .begin_level(&args, CHANGE, TABLES, &names(&["channel", "tier"]), &changes)
        .expect("a reason");
    assert_eq!(stop, "reached max depth 2");
    close_trace(&mut search.trace, &stop);
    assert_eq!(search.trace[0].stopping_reason, None);
    assert_eq!(search.trace[1].stopping_reason, Some(stop));
}

#[test]
fn tied_dimensions_go_by_their_names() {
    let args = options();
    let mut search = start_search(root(), "region");
    let changes = raised(&search);
    search.begin_level(&args, CHANGE, TABLES, &names(&["tier", "channel"]), &changes);
    let mut tied = finding(30.0, 30.0, &[("region", "West")]);
    tied.steps.reverse();
    assert_eq!(search.take_finding(&args, CHANGE, tied), Verdict::Drill);
    assert_eq!(search.steps[1].dimension, "channel");
}

#[test]
fn barren_levels_say_why() {
    let why = |args: &InvestigateWorkflowArgs,
               top: InvestigationStep,
               dimensions: &[&str],
               answer: Option<Finding>|
     -> String {
        let mut search = start_search(top, "region");
        let changes = raised(&search);
        let barrier = search.begin_level(args, CHANGE, TABLES, &names(dimensions), &changes);
        assert_eq!(barrier, None);
        if let Some(f) = answer {
            assert_ne!(search.take_finding(args, CHANGE, f), Verdict::Drill);
        }
        search.end_level(args, &thresholds()).expect("a reason")
    };
    let args = options();
    assert_eq!(
        why(&args, root(), &["region"], None),
        "no remaining drill dimension was available"
    );
    let weak = step("region", &[], vec![mover("West", 10.0, 9.0)]);
    assert_eq!(
        why(&args, weak, &["channel"], None),
        "no drill candidate met thresholds (min_contribution=5.00, min_slice_rows=5)"
    );
    let composite = step("region", &[], vec![mover("West | Direct", 100.0, 10.0)]);
    assert_eq!(
        why(&args, composite, &["channel"], None),
        "top drill candidates were composite groups; use one dimension per step in v1"
    );
    let mut strict = options();
    strict.min_delta_abs = num(60.0);
    assert_eq!(
        why(&strict, root(), &["channel"], None),
        "no drill candidate met absolute-delta threshold (min_delta_abs=D)"
    );
    let mut rising = options();
    rising.min_score_improvement = num(1.0);
    let mut f = finding(30.0, 45.0, &[("region", "West")]);
    f.required_score = num(51.0);
    assert_eq!(
        why(&rising, root(), &["channel", "tier"], Some(f)),
        "no drill candidate met score-improvement threshold (min_score_improvement=S)"
    );
}

#[test]
fn artifacts_are_not_drilled_into() {
    let mut search = start_search(root(), "region");
    let changes = raised(&search);
    let stop = search.begin_level(
        &options(),
        CHANGE,
        InvestigateInputKind::JsonArtifacts,
        &names(&["channel"]),
        &changes,
    );
    assert_eq!(
        stop,
        Some(text("stopped after top-level analysis: drill-down requires CSV datasets, but --base/--new are JSON artifacts"))
    );
}

#[test]
fn senseless_options_are_refused() {
    let broken = |change: &dyn Fn(&mut InvestigateWorkflowArgs)| {
        let mut args = options();
        change(&mut args);
        (check_search_options(&args).err(), check_search(&args).err())
    };
    let both = |message: &str| (Some(text(message)), Some(text(message)));
    assert_eq!(
        broken(&|a| a.max_depth = 0),
        both("--max-depth must be >= 1")
    );
    assert_eq!(
        broken(&|a| a.max_branches = 0),
        both("--max-branches must be >= 1")
    );
    assert_eq!(
        broken(&|a| a.top_movers = 0),
        both("--top-movers must be >= 1")
    );
    assert_eq!(
        broken(&|a| a.min_delta_abs = num(-1.0)),
        both("--min-delta-abs must be >= 0")
    );
    assert_eq!(
        broken(&|a| a.min_score_improvement = num(-1.0)),
        both("--min-score-improvement must be >= 0")
    );
    assert_eq!(
        broken(&|a| {
            a.max_branches = 7;
            a.max_depth = 4;
        }),
        (
            None,
            Some(text("investigation search is too large (max_branches^depth=343): reduce --max-branches or --max-depth"))
        )
    );
    let mut silent = options();
    silent.question = text("  ");
    assert!(check_question(&silent).is_err());
    assert_eq!(check_question(&options()), Ok(()));
    assert_eq!(check_search(&options()), Ok(()));
}

#[test]
fn dimensions_that_were_used_are_not_offered_again() {
    let s = step("channel", &[("region", "West")], vec![]);
    let used = used_dimensions_for_step(&s);
    assert_eq!(used, names(&["region", "channel"]));
    let all = names(&["channel", "tier", "region", "size"]);
    assert_eq!(choose_next_dimension(&all, &used), Some(text("tier")));
    assert_eq!(
        remaining_drill_dimensions(&all, &used),
        names(&["tier", "size"])
    );
    assert_eq!(float(top_step_score(&s, CHANGE)), 0.0);
    assert_eq!(float(top_step_delta_abs(&root())), 50.0);
    assert_eq!(
        float(top_step_score(&root(), InvestigationMode::ConcentrationDrivers)),
        2.0
    );
}

#[test]
fn the_strongest_change_of_each_dimension_is_listed() {
    let steps = vec![
        step(
            "region",
            &[],
            vec![mover("(blank)", 900.0, 0.0), mover("West", 100.0, 50.0)],
        ),
        step("tier", &[], vec![mover("Gold", 10.0, 90.0)]),
        step("size", &[], vec![mover(" ", 10.0, 90.0)]),
    ];
    let found = identify_major_global_changes(&steps, CHANGE, 5);
    let listed: Vec<(&str, &str)> = found
        .iter()
        .map(|c| (c.dimension.as_str(), c.segment.as_str()))
        .collect();
    assert_eq!(listed, vec![("tier", "Gold"), ("region", "West")]);
    assert_eq!(identify_major_global_changes(&steps, CHANGE, 0).len(), 1);
    let available = names(&["region", "Region", "tier"]);
    assert_eq!(
        major_change_dimensions(&available),
        names(&["region", "tier"])
    );
    assert!(major_change_limit_for_dimensions(&available) >= 1);
}

fn figures(delta: f64, score: f64, required: f64) -> StepFigures {
    StepFigures {
        raised_delta: num(delta),
        raised_score: num(score),
        required_score: num(required),
        delta_text: text("1.00"),
        score_text: text("2.00"),
        previous_score_text: text("3.00"),
        min_delta_text: text("4.00"),
        min_improvement_text: text("5.00"),
    }
}

fn compare(group_by: &str) -> InvestigationExecAction {
    InvestigationExecAction::AnalyzeCompare {
        group_by: text(group_by),
        scope: vec![],
        reason: text("look at everything"),
    }
}

fn descend(group_by: &str) -> InvestigationExecAction {
    InvestigationExecAction::DrillDown {
        group_by: text(group_by),
        scope: pairs(&[("region", "West")]),
        reason: text("go on"),
    }
}

fn west_by_tier() -> InvestigationStep {
    step("tier", &[("region", "West")], vec![mover("Gold", 9.0, 0.0)])
}

fn begun(args: &InvestigateWorkflowArgs) -> PlannedSearch {
    let mut search = PlannedSearch::new();
    assert_eq!(search.next_round(args), Some(0));
    assert_eq!(
        search.take_step(args, CHANGE, compare("region"), root(), &figures(50.0, 50.0, 5.0)),
        None
    );
    assert_eq!(search.next_round(args), Some(1));
    search
}

#[test]
fn planned_steps_count_while_they_tell_more() {
    let mut args = options();
    args.min_delta_abs = num(4.0);
    args.min_score_improvement = num(5.0);
    let mut search = begun(&args);
    assert_eq!(search.steps.len(), 1);
    assert_eq!(search.trace[0].depth, 0);
    assert_eq!(search.trace[0].action, "analyze_compare");
    assert_eq!(search.trace[0].decision, "look at everything");
    assert_eq!(
        search.take_step(&args, CHANGE, descend("tier"), west_by_tier(), &figures(3.0, 90.0, 55.0)),
        Some(text("no planned step met absolute-delta threshold (min_delta_abs=4.00)"))
    );
    assert_eq!(search.steps.len(), 1);
    assert_eq!(search.trace[1].depth, 1);
    assert_eq!(
        search.trace[1].decision,
        "planned drill_down did not meet absolute delta threshold (current_abs=1.00, required=4.00)"
    );
    assert_eq!(search.next_round(&args), None);
    assert_eq!(
        search.stop_reason(&args),
        "no planned step met absolute-delta threshold (min_delta_abs=4.00)"
    );
    let mut search = begun(&args);
    assert_eq!(
        search.take_step(&args, CHANGE, descend("tier"), west_by_tier(), &figures(9.0, 9.0, 55.0)),
        Some(text("no planned step met score-improvement threshold (min_score_improvement=5.00)"))
    );
    assert_eq!(
        search.trace[1].decision,
        "planned drill_down did not improve score enough (prev=3.00, current=2.00, required +5.00)"
    );
    assert_eq!(search.next_round(&args), None);
}

#[test]
fn a_planned_search_has_no_more_rounds_than_its_depth() {
    let args = options();
    let mut search = begun(&args);
    assert_eq!(
        search.take_step(&args, CHANGE, descend("tier"), west_by_tier(), &figures(9.0, 90.0, 55.0)),
        None
    );
    assert_eq!((search.steps.len(), search.trace.len()), (2, 2));
    assert_eq!(search.next_round(&args), None);
    assert_eq!(search.stop_reason(&args), "reached max depth 2");
    assert_eq!(depth_reached(&args), "reached max depth 2");
    let mut none = options();
    none.max_depth = 0;
    assert_eq!(PlannedSearch::new().next_round(&none), None);
}

#[test]
fn a_stop_ends_a_planned_search() {
    let args = options();
    let mut search = begun(&args);
    search.take_stop(&args, "enough");
    assert_eq!(search.trace[1].action, "stop");
    assert_eq!(search.trace[1].depth, 1);
    assert_eq!(search.trace[1].stopping_reason, Some(text("enough")));
    assert_eq!(search.steps.len(), 1);
    assert_eq!(search.next_round(&args), None);
    assert_eq!(search.stop_reason(&args), "enough");
}

#[test]
fn a_failed_plan_falls_back_on_fixed_rules() {
    let args = options();
    let first = deterministic_fallback_action(
        &args,
        CHANGE,
        TABLES,
        "region",
        &names(&["channel"]),
        &[],
        &[],
    );
    match &first {
        InvestigationExecAction::AnalyzeCompare { group_by, scope, .. } => {
            assert_eq!(group_by, "region");
            assert!(scope.is_empty());
        }
        other => panic!("{other:?}"),
    }
    let next = deterministic_fallback_action(
        &args,
        CHANGE,
        TABLES,
        "region",
        &names(&["channel"]),
        &[root()],
        &[num(50.0), num(2.0)],
    );
    match mark_fallback(next, "no answer") {
        InvestigationExecAction::DrillDown {
            group_by,
            scope,
            reason,
        } => {
            assert_eq!(group_by, "channel");
            assert_eq!(scope, pairs(&[("region", "West")]));
            assert!(reason.ends_with(" (fallback: no answer)"), "{reason}");
        }
        other => panic!("{other:?}"),
    }
    assert_eq!(
        both_planners_failed("a", "b"),
        "primary planner failed: a; local fallback failed: b"
    );
    assert_eq!(
        both_summaries_failed("a", "b"),
        "primary summary planner failed: a; local fallback failed: b"
    );
}

#[test]
fn the_first_planner_that_answers_counts() {
    let stop = |reason: &str| InvestigationExecAction::Stop {
        reason: text(reason),
    };
    let settle = |primary: Result<&str, &str>, local: Option<Result<&str, &str>>| {
        let plan = |r: Result<&str, &str>| r.map(stop).map_err(text);
        llm_plan_next_action_with_fallback(plan(primary), local.map(plan)).map(|(action, source)| {
            match action {
                InvestigationExecAction::Stop { reason } => (reason, source),
                other => panic!("{other:?}"),
            }
        })
    };
    assert_eq!(settle(Ok("done"), None), Ok((text("done"), "primary")));
    assert_eq!(settle(Err("x"), Some(Ok("enough"))), Ok((text("enough"), "local_fallback")));
    assert_eq!(settle(Err("x"), None), Err(text("x")));
    assert_eq!(
        settle(Err("x"), Some(Err("y"))),
        Err(text("primary planner failed: x; local fallback failed: y"))
    );
    let sum_up = |primary: Result<&str, &str>, local: Option<Result<&str, &str>>| {
        let told = |r: Result<&str, &str>| r.map(text).map_err(text);
        llm_finalize_summary_with_fallback(told(primary), local.map(told))
    };
    assert_eq!(sum_up(Ok("a"), Some(Ok("b"))), Ok(text("a")));
    assert_eq!(sum_up(Err("x"), Some(Ok("b"))), Ok(text("b")));
    assert_eq!(sum_up(Err("x"), None), Err(text("x")));
    assert_eq!(
        sum_up(Err("x"), Some(Err("y"))),
        Err(text("primary summary planner failed: x; local fallback failed: y"))
    );
}

#[test]
fn models_of_planners_are_settled() {
    let mut args = options();
    let local = Some(text("small.gguf"));
    args.planner_model = Some(text("own"));
    assert_eq!(resolve_planner_model(&args, "far", &local), Ok(text("own")));
    args.planner_model = Some(text("  "));
    assert_eq!(
        resolve_planner_model(&args, "far", &local),
        Ok(text("small.gguf"))
    );
    assert_eq!(
        resolve_planner_model(&args, "far", &None),
        Err(text("--planner-model is required when --planner llm --planner-backend local (or set FACTORLENS_PLANNER_LOCAL_MODEL / FACTORLENS_LOCAL_MODEL)"))
    );
    assert_eq!(local_fallback_planner_model_name(&args, &local), None);
    args.planner_backend = BackendArg::Bedrock;
    assert_eq!(resolve_planner_model(&args, "far", &local), Ok(text("far")));
    assert_eq!(local_fallback_planner_model_name(&args, &local), local);
}

fn proposal(action: &str, group_by: &[&str], filters: &[(&str, &str)]) -> LlmPlannerAction {
    LlmPlannerAction {
        action: text(action),
        reason: Some(text("the west lost most of its revenue")),
        params: Some(LlmPlannerParams {
            metric: None,
            group_by: Some(names(group_by)),
            filters: Some(pairs(filters)),
        }),
    }
}

#[test]
fn the_last_valid_proposal_is_taken() {
    let args = options();
    let available = names(&["region", "channel", "tier"]);
    let good = proposal("analyze_compare", &["region"], &[]);
    let bad = proposal("dance", &["region"], &[]);
    match choose_planner_action(
        &vec![good, bad.clone()],
        &args,
        &available,
        &[],
        TABLES,
    ) {
        Ok(InvestigationExecAction::AnalyzeCompare { group_by, .. }) => {
            assert_eq!(group_by, "region")
        }
        other => panic!("{other:?}"),
    }
    let reasons = choose_planner_action(&vec![bad], &args, &available, &[], TABLES)
        .expect_err("no valid action");
    assert_eq!(reasons.len(), 1);
    assert_eq!(
        no_valid_action_message(&names(&["a", "b", "c", "d"])),
        "no valid llm action candidate: a | b | c"
    );
}

#[test]
fn proposals_are_read_from_an_answer() {
    let one = || proposal("stop", &[], &[]);
    let whole = parse_llm_planner_actions(Some(one()), vec![]).expect("an action");
    assert_eq!(whole.len(), 1);
    let some = parse_llm_planner_actions(None, vec![Err(text("bad")), Ok(one()), Ok(one())]);
    assert_eq!(some.expect("actions").len(), 2);
    assert_eq!(
        parse_llm_planner_actions(None, vec![Err(text("bad")), Err(text("worse"))]).err(),
        Some(text("failed to parse llm planner JSON: worse"))
    );
    assert_eq!(
        parse_llm_planner_actions(None, vec![]).err(),
        Some(text("llm output missing parseable JSON object"))
    );
}

#[test]
fn summaries_are_accepted_or_made_up_from_the_steps() {
    assert_eq!(
        accept_summary(String::new(), true),
        Err(text("llm final summary was empty"))
    );
    assert_eq!(
        accept_summary(text("Revenue fell in the west by 50."), false),
        Err(text("llm final summary failed quality checks"))
    );
    assert_eq!(
        accept_summary(text("Revenue fell in the west by 50."), true),
        Ok(text("Revenue fell in the west by 50."))
    );
    assert_eq!(
        deterministic_summary_from_steps(&vec![root()], "-50.00", "-2.00", "enough", "What now?"),
        "Largest shift is 'West' (-50.00 delta metric, -2.00 pp share).\nStop reason: enough.\nNext: What now?"
    );
    assert_eq!(
        deterministic_summary_from_steps(&vec![], "", "", "enough", "What now?"),
        "No significant mover was identified.\nStop reason: enough.\nNext: What now?"
    );
    assert_eq!(
        render_final_summary("a\n\n  b  "),
        "\n## Final summary\n\n- a\n- b\n"
    );
    assert!(planner_user_prompt("{}").ends_with("Input payload:\n{}"));
    assert_eq!(
        summary_user_prompt("{}"),
        "Provide 2-4 short lines. Keep it concise and grounded. Do not output JSON.\n{}"
    );
}

#[test]
fn an_investigation_is_written_out() {
    let steps = vec![
        root(),
        step("tier", &[("region", "West")], vec![mover("Gold", 45.0, 0.0)]),
    ];
    let mut search = start_search(root(), "region");
    close_trace(&mut search.trace, "reached max depth 2");
    let (nodes, edges) = build_investigation_branch_graph(&steps, CHANGE);
    let graph = draw_branch_graph(&nodes, &edges, &names(&["-5.00"]));
    assert_eq!(
        graph,
        names(&[
            "```mermaid",
            "graph TD",
            "  N0[\"d0 | region | scope: global | strongest: West\"]",
            "  N1[\"d1 | tier | scope: region=West | strongest: Gold\"]",
            "  N0 -->|-5.00| N1",
            "```",
        ])
    );
    let share = || ShareTexts {
        base: text("60.00"),
        new: text("55.00"),
        delta: text("-5.00"),
    };
    let moved = |metric: &str| MoverLine {
        base: text("20.00"),
        new: text("18.00"),
        delta: text("-2.00"),
        metric: text(metric),
    };
    let changes = vec![InvestigationMajorChange {
        dimension: text("tier"),
        segment: text("Go|ld"),
        primary_metric: text("revenue"),
        delta_primary_metric_value: num(-45.0),
        delta_share_pp: num(-2.0),
        score: num(45.0),
    }];
    let scores: Vec<Num> = steps
        .iter()
        .map(|s| num(float(top_step_score(s, CHANGE)) + f64::EPSILON))
        .collect();
    let branches = build_branch_summary_rows(&steps, CHANGE, 3, &scores);
    assert_eq!(branches.len(), 1);
    let largest = largest_movers(&steps[0].movers);
    assert_eq!(largest[0].segment, "East");
    let step_texts = |delta: &str| StepTexts {
        delta: text(delta),
        signed_delta: text(delta),
        share: text("-2.00"),
        explained: text("96.15"),
        residual: text("2.00"),
    };
    let page = render_investigation_workflow_markdown(
        &PageTexts {
            question: text("why?"),
            mode: CHANGE,
            base: text("base.csv"),
            new: text("new.csv"),
            top: TopTexts {
                base_total: text("180.00"),
                new_total: text("128.00"),
                delta_total: text("-52.00"),
                strongest_delta: text("-50.00"),
                strongest_share: text("-2.00"),
                top1: share(),
                top5: share(),
                metric_top1: share(),
                metric_top5: share(),
                largest: vec![
                    ShareLine {
                        base: text("44.44"),
                        new: text("60.94"),
                        delta: text("+16.49"),
                        records: text("18.00"),
                    },
                    ShareLine {
                        base: text("55.56"),
                        new: text("39.06"),
                        delta: text("-16.49"),
                        records: text("18.00"),
                    },
                ],
                movers: vec![moved("-50.00"), moved("-2.00")],
            },
            changes: vec![ChangeLine {
                metric: text("-45.00"),
                share: text("-2.00"),
            }],
            total_delta: text("-52.00"),
            total_delta_abs: text("52.00"),
            strongest_explained: text("96.15"),
            stop_reason: text("reached max depth 2"),
            next_question: text("What now?"),
        },
        &changes,
        &steps,
        &vec![step_texts("-50.00"), step_texts("-45.00")],
        &search.trace,
        &branches,
        &vec![BranchTexts {
            root_score: text("50.00"),
            delta: text("-45.00"),
        }],
        &graph,
    );
    for part in [
        "# Investigation Report\n\n- Question: why?\n- Mode: change_drivers\n- Base input: base.csv\n- New input: new.csv\n\n",
        "- Between compared periods, total `revenue` changed from 180.00 to 128.00 (delta = -52.00).\n",
        "- On `region` the strongest mover is `West` (delta revenue = -50.00, delta share = -2.00 pp).\n",
        "because only 2 segments exist; top-1 record-share concentration moved from 60.00% to 55.00% (-5.00 pp).\n",
        "| Top-5 concentration (record-share) | 60.00% | 55.00% | -5.00 pp |\n",
        "- Largest new-period segments by metric share: East (60.94% metric share), West (39.06% metric share).\n",
        "| 1 | East | 44.44% | 60.94% | +16.49 pp | 18.00% |\n",
        "| 2 | West | 55.56% | 39.06% | -16.49 pp | 18.00% |\n",
        "| 1 | West | 20.00% | 18.00% | -2.00 pp | -50.00 |\n",
        "| 2 | East | 20.00% | 18.00% | -2.00 pp | -2.00 |\n",
        "| 1 | region=West | 50.00 | depth 1 / tier | Gold | -45.00 |\n",
        "### Strongest mover by configured dimension\n\n| # | Dimension | Segment | Delta metric | Delta share |\n|---:|---|---|---:|---:|\n| 1 | tier | Go\\|ld | -45.00 | -2.00 pp |\n",
        "- Depth 1 scope [region=West] grouped by `tier`: strongest mover `Gold` (delta revenue = -45.00, delta share = -2.00 pp).\n",
        "| 1 | region=West | tier | Gold | -45.00 | -2.00 pp |\n",
        "- Total delta (`revenue`) = -52.00 (abs 52.00).\n- Top-level strongest segment `West` explains 96.15% of total delta.\n",
        "| 1 | 1 | tier | Gold | -45.00 | 96.15% | 2.00 |\n",
        "## Drill-down graph\n\n```mermaid\n",
        "## Why it stopped\n\n- reached max depth 2\n\n## Recommended next question\n\n- What now?\n\n## Decision trace\n\n- depth=0 action=top_level_compare scope=[global] decision=ran base/new comparison grouped by region\n",
    ] {
        assert!(page.contains(part), "{part}\n---\n{page}");
    }
}
