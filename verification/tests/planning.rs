//! Planned steps: what a planner proposes, and what becomes of it.

use factorlens::args::{
    BackendArg, InvestigateInputKind, InvestigateOutputFormat, InvestigateWorkflowArgs,
    InvestigationMode, InvestigationModeArg, InvestigationPlanner, PostgresSslMode,
};
use factorlens::drill::{resolve_investigation_mode, route_investigation_mode};
use factorlens::investigation::{InvestigationMover, InvestigationStep};
use factorlens::metric::metric_matches_expected;
use factorlens::num::Num;
use factorlens::planner::{
    normalize_planner_reason, validate_llm_planner_action, InvestigationExecAction,
    LlmPlannerAction, LlmPlannerParams,
};
use factorlens::proposals::{parse_llm_planner_action, planner_candidates};

fn text(s: &str) -> String {
    s.to_string()
}

fn num(x: f64) -> Num {
    Num { bits: x.to_bits() }
}

fn names(xs: &[&str]) -> Vec<String> {
    xs.iter().map(|x| text(x)).collect()
}

fn investigate_workflow_args() -> InvestigateWorkflowArgs {
    InvestigateWorkflowArgs {
        question: text("why did revenue change"),
        mode: None,
        config: None,
        profile: None,
        profile_config: None,
        base: Some(text("artifacts/base.json")),
        new: Some(text("artifacts/new.json")),
        postgres_url: None,
        postgres_ssl_mode: PostgresSslMode::Prefer,
        postgres_ca_file: None,
        query: None,
        query_file: None,
        metric: None,
        date_column: None,
        time_grain: None,
        period: None,
        anchor_date: None,
        current_start: None,
        current_end: None,
        previous_start: None,
        previous_end: None,
        dimensions: names(&["region"]),
        drill_fields: names(&["channel"]),
        max_depth: 2,
        max_branches: 2,
        min_contribution: num(5.0),
        min_delta_abs: num(0.0),
        min_score_improvement: num(0.0),
        min_slice_rows: 5,
        top_movers: 2,
        planner: InvestigationPlanner::Deterministic,
        planner_backend: BackendArg::Local,
        planner_model: None,
        verbose: false,
        trace: false,
        output_format: InvestigateOutputFormat::Json,
        out: None,
    }
}

fn mover(segment: &str, records: (u64, u64), shares: (f64, f64, f64), values: (f64, f64, f64)) -> InvestigationMover {
    InvestigationMover {
        segment: text(segment),
        base_records: records.0,
        new_records: records.1,
        base_share_pct: num(shares.0),
        new_share_pct: num(shares.1),
        delta_share_pp: num(shares.2),
        base_primary_metric_value: num(values.0),
        new_primary_metric_value: num(values.1),
        delta_primary_metric_value: num(values.2),
    }
}

fn step(
    depth: usize,
    dimension: &str,
    scope: Vec<(String, String)>,
    records: (u64, u64),
    segment_count: usize,
    top5: (f64, f64, f64),
    top1: (f64, f64, f64),
    movers: Vec<InvestigationMover>,
) -> InvestigationStep {
    InvestigationStep {
        depth,
        dimension: text(dimension),
        scope,
        primary_metric: text("revenue_usd"),
        base_records: records.0,
        new_records: records.1,
        segment_count,
        top5_concentration_base_pct: num(top5.0),
        top5_concentration_new_pct: num(top5.1),
        top5_concentration_delta_pp: num(top5.2),
        top1_concentration_base_pct: num(top1.0),
        top1_concentration_new_pct: num(top1.1),
        top1_concentration_delta_pp: num(top1.2),
        movers,
    }
}

fn region_step(movers: Vec<InvestigationMover>) -> InvestigationStep {
    step(
        0,
        "region",
        vec![],
        (100, 150),
        4,
        (100.0, 100.0, 0.0),
        (29.0, 47.33, 18.33),
        movers,
    )
}

fn us_mover(values: (f64, f64, f64)) -> InvestigationMover {
    mover("US", (29, 71), (29.0, 47.33, 18.33), values)
}

fn proposal(
    action: &str,
    reason: &str,
    metric: &str,
    group_by: Option<&[&str]>,
    filters: &[(&str, &str)],
) -> LlmPlannerAction {
    LlmPlannerAction {
        action: text(action),
        reason: Some(text(reason)),
        params: Some(LlmPlannerParams {
            metric: Some(text(metric)),
            group_by: group_by.map(names),
            filters: Some(filters.iter().map(|(k, v)| (text(k), text(v))).collect()),
        }),
    }
}

fn read_action(source: &str) -> Result<LlmPlannerAction, String> {
    let v: serde_json::Value = serde_json::from_str(source).map_err(|e| e.to_string())?;
    let action = v
        .get("action")
        .and_then(|a| a.as_str())
        .ok_or_else(|| text("missing field `action`"))?;
    Ok(LlmPlannerAction {
        action: text(action),
        reason: v.get("reason").and_then(|r| r.as_str()).map(text),
        params: v.get("params").map(|p| LlmPlannerParams {
            metric: p.get("metric").and_then(|m| m.as_str()).map(text),
            group_by: p.get("group_by").and_then(|g| g.as_array()).map(|g| {
                g.iter()
                    .filter_map(|x| x.as_str())
                    .map(text)
                    .collect::<Vec<_>>()
            }),
            filters: p.get("filters").and_then(|f| f.as_object()).map(|f| {
                f.iter()
                    .filter_map(|(k, x)| x.as_str().map(|x| (k.clone(), text(x))))
                    .collect::<Vec<_>>()
            }),
        }),
    })
}

fn parse(raw: &str) -> Result<LlmPlannerAction, String> {
    let whole = read_action(raw.trim()).ok();
    let parsed = planner_candidates(raw)
        .iter()
        .map(|c| read_action(c))
        .collect::<Vec<_>>();
    parse_llm_planner_action(whole, parsed)
}

#[test]
fn route_investigation_mode_uses_expected_keywords() {
    assert_eq!(
        route_investigation_mode("Why did concentration increase last month?"),
        InvestigationMode::ConcentrationDrivers
    );
    assert_eq!(
        route_investigation_mode("Compare current vs baseline and list biggest shifts"),
        InvestigationMode::CompareSnapshots
    );
    assert_eq!(
        route_investigation_mode("What should I inspect next?"),
        InvestigationMode::RecommendNext
    );
    assert_eq!(
        route_investigation_mode("Why did revenue change?"),
        InvestigationMode::ChangeDrivers
    );
}

#[test]
fn resolve_investigation_mode_prefers_explicit_mode_over_question() {
    let mut args = investigate_workflow_args();
    args.question = text("What should I inspect next?");
    args.mode = Some(InvestigationModeArg::ChangeDrivers);
    assert_eq!(
        resolve_investigation_mode(&args),
        InvestigationMode::ChangeDrivers
    );
}

#[test]
fn metric_matches_expected_accepts_common_aliases() {
    assert!(metric_matches_expected("revenue_usd", "revenue_usd"));
    assert!(metric_matches_expected("Revenue_USD", "revenue_usd"));
    assert!(metric_matches_expected("revenue", "revenue_usd"));
    assert!(metric_matches_expected("conversion", "conversion_rate"));
    assert!(!metric_matches_expected("cost", "revenue_usd"));
}

#[test]
fn validate_llm_planner_action_accepts_metric_alias_and_normalizes_dimension() {
    let mut args = investigate_workflow_args();
    args.metric = Some(text("revenue_usd"));
    let proposed = proposal("analyze_compare", "test", "revenue", Some(&["REGION"]), &[]);
    let out = validate_llm_planner_action(
        &proposed,
        &args,
        &names(&["region", "channel"]),
        &[],
        InvestigateInputKind::CsvDatasets,
    )
    .expect("alias metric should pass");
    match out {
        InvestigationExecAction::AnalyzeCompare { group_by, .. } => {
            assert_eq!(group_by, "region")
        }
        _ => panic!("expected analyze_compare"),
    }
}

#[test]
fn validate_llm_planner_action_ignores_mismatched_metric_override() {
    let mut args = investigate_workflow_args();
    args.metric = Some(text("revenue_usd"));
    let proposed = proposal(
        "analyze_compare",
        "test",
        "revenue_concentration",
        Some(&["region"]),
        &[],
    );
    let out = validate_llm_planner_action(
        &proposed,
        &args,
        &names(&["region", "channel"]),
        &[],
        InvestigateInputKind::CsvDatasets,
    )
    .expect("mismatched metric should be ignored");
    match out {
        InvestigationExecAction::AnalyzeCompare { group_by, .. } => {
            assert_eq!(group_by, "region")
        }
        _ => panic!("expected analyze_compare"),
    }
}

#[test]
fn validate_llm_planner_action_infers_group_by_when_missing() {
    let mut args = investigate_workflow_args();
    args.metric = Some(text("revenue_usd"));

    let top_level = proposal("analyze_compare", "test", "revenue_usd", None, &[]);
    let out0 = validate_llm_planner_action(
        &top_level,
        &args,
        &names(&["region", "channel", "product_line"]),
        &[],
        InvestigateInputKind::CsvDatasets,
    )
    .expect("top-level should infer region");
    match out0 {
        InvestigationExecAction::AnalyzeCompare { group_by, .. } => {
            assert_eq!(group_by, "region")
        }
        _ => panic!("expected analyze_compare"),
    }

    let steps = vec![region_step(vec![])];
    let drill = proposal("drill_down", "test", "revenue_usd", None, &[("region", "US")]);
    let out1 = validate_llm_planner_action(
        &drill,
        &args,
        &names(&["region", "channel", "product_line"]),
        &steps,
        InvestigateInputKind::CsvDatasets,
    )
    .expect("drill should infer next dimension");
    match out1 {
        InvestigationExecAction::DrillDown { group_by, .. } => assert_eq!(group_by, "channel"),
        _ => panic!("expected drill_down"),
    }
}

#[test]
fn validate_llm_planner_action_rejects_first_step_drill_down() {
    let mut args = investigate_workflow_args();
    args.metric = Some(text("revenue_usd"));
    let proposed = proposal(
        "drill_down",
        "test",
        "revenue_usd",
        Some(&["region"]),
        &[("region", "US")],
    );
    let err = match validate_llm_planner_action(
        &proposed,
        &args,
        &names(&["region", "channel"]),
        &[],
        InvestigateInputKind::CsvDatasets,
    ) {
        Ok(_) => panic!("first step drill_down should fail"),
        Err(err) => err,
    };
    assert!(
        err.contains("first llm action must be analyze_compare"),
        "unexpected error: {}",
        err
    );
}

#[test]
fn validate_llm_planner_action_stop_autofollows_drilldown_when_possible() {
    let mut args = investigate_workflow_args();
    args.metric = Some(text("revenue_usd"));
    args.max_depth = 3;

    let steps = vec![region_step(vec![us_mover((1.0, 2.0, 1.0))])];
    let proposed = LlmPlannerAction {
        action: text("stop"),
        reason: Some(text("previous result indicates a significant change")),
        params: None,
    };
    let out = validate_llm_planner_action(
        &proposed,
        &args,
        &names(&["region", "channel", "product_line"]),
        &steps,
        InvestigateInputKind::CsvDatasets,
    )
    .expect("stop should auto-follow into one drill-down");
    match out {
        InvestigationExecAction::DrillDown {
            group_by,
            scope,
            reason,
        } => {
            assert_eq!(group_by, "channel");
            assert_eq!(scope, vec![(text("region"), text("US"))]);
            assert!(
                reason.contains("auto-follow"),
                "unexpected reason: {}",
                reason
            );
        }
        _ => panic!("expected auto drill_down"),
    }
}

#[test]
fn validate_llm_planner_action_auto_pivots_repeated_analyze_to_drilldown() {
    let mut args = investigate_workflow_args();
    args.metric = Some(text("revenue_usd"));

    let steps = vec![region_step(vec![us_mover((1.0, 2.0, 1.0))])];
    let proposed = proposal(
        "analyze_compare",
        "retry top level",
        "revenue_usd",
        Some(&["region"]),
        &[],
    );
    let out = validate_llm_planner_action(
        &proposed,
        &args,
        &names(&["region", "channel", "product_line"]),
        &steps,
        InvestigateInputKind::CsvDatasets,
    )
    .expect("should auto-pivot to drilldown");
    match out {
        InvestigationExecAction::DrillDown {
            group_by, scope, ..
        } => {
            assert_eq!(group_by, "channel");
            assert_eq!(scope, vec![(text("region"), text("US"))]);
        }
        _ => panic!("expected drill_down"),
    }
}

#[test]
fn validate_llm_planner_action_avoids_grouping_by_scoped_dimension() {
    let mut args = investigate_workflow_args();
    args.metric = Some(text("revenue_usd"));
    let steps = vec![region_step(vec![us_mover((
        4_020_509.65,
        13_561_697.76,
        9_541_188.11,
    ))])];
    let proposed = proposal(
        "analyze_compare",
        "test",
        "revenue_usd",
        Some(&["region"]),
        &[("region", "US")],
    );
    let out = validate_llm_planner_action(
        &proposed,
        &args,
        &names(&["region", "channel", "product_line"]),
        &steps,
        InvestigateInputKind::CsvDatasets,
    )
    .expect("should auto-adjust scoped group_by");
    match out {
        InvestigationExecAction::AnalyzeCompare {
            group_by, scope, ..
        } => {
            assert_eq!(scope, vec![(text("region"), text("US"))]);
            assert_ne!(group_by, "region");
            assert_eq!(group_by, "channel");
        }
        _ => panic!("expected analyze_compare"),
    }
}

#[test]
fn validate_llm_planner_action_preserves_prior_scope_chain() {
    let mut args = investigate_workflow_args();
    args.metric = Some(text("revenue_usd"));
    let steps = vec![
        step(
            0,
            "region",
            vec![],
            (100, 120),
            4,
            (80.0, 82.0, 2.0),
            (30.0, 34.0, 4.0),
            vec![mover("West", (20, 35), (20.0, 29.0, 9.0), (200.0, 500.0, 300.0))],
        ),
        step(
            1,
            "channel",
            vec![(text("region"), text("West"))],
            (50, 60),
            3,
            (100.0, 100.0, 0.0),
            (45.0, 55.0, 10.0),
            vec![mover("Direct", (30, 40), (45.0, 55.0, 10.0), (300.0, 700.0, 400.0))],
        ),
    ];
    let proposed = proposal(
        "analyze_compare",
        "Strongest driver is channel",
        "revenue_usd",
        Some(&["region"]),
        &[("channel", "Direct")],
    );
    let out = validate_llm_planner_action(
        &proposed,
        &args,
        &names(&["region", "channel", "product_line"]),
        &steps,
        InvestigateInputKind::CsvDatasets,
    )
    .expect("should preserve prior scope and choose non-scoped group_by");
    match out {
        InvestigationExecAction::AnalyzeCompare {
            group_by, scope, ..
        } => {
            assert_eq!(
                scope,
                vec![
                    (text("region"), text("West")),
                    (text("channel"), text("Direct"))
                ]
            );
            assert_eq!(group_by, "product_line");
        }
        _ => panic!("expected analyze_compare"),
    }
}

#[test]
fn normalize_planner_reason_rewrites_placeholder_text() {
    assert_eq!(
        normalize_planner_reason("drill_down", "previous_result"),
        "planner selected drill-down from prior top mover"
    );
    assert_eq!(
        normalize_planner_reason(
            "analyze_compare",
            "previous results indicate a need for comparison"
        ),
        "planner selected top-level comparison"
    );
}

#[test]
fn parse_llm_planner_action_handles_wrapped_json() {
    let raw = "planner: ok\n{\"action\":\"analyze_compare\",\"reason\":\"top\",\"params\":{\"group_by\":[\"region\"],\"filters\":{}}}\nextra";
    let parsed = parse(raw).expect("parse wrapped json");
    assert_eq!(parsed.action, "analyze_compare");
}

#[test]
fn parse_llm_planner_action_prefers_last_json_object() {
    let raw = "{\"action\":\"analyze_compare\",\"reason\":\"first\",\"params\":{\"group_by\":[\"region\"],\"filters\":{}}}\n{\"action\":\"drill_down\",\"reason\":\"second\",\"params\":{\"group_by\":[\"channel\"],\"filters\":{\"region\":\"US\"}}}\n";
    let parsed = parse(raw).expect("parse last json");
    assert_eq!(parsed.action, "drill_down");
}

#[test]
fn planner_text_without_an_object_is_refused() {
    assert_eq!(
        parse("no object here").err(),
        Some(text("llm output missing parseable JSON object"))
    );
    let err = parse("{\"reason\":\"none\"}").err().unwrap();
    assert_eq!(
        err,
        "failed to parse llm planner JSON: missing field `action`"
    );
}

#[test]
fn unknown_actions_are_refused() {
    let mut args = investigate_workflow_args();
    args.metric = Some(text("revenue_usd"));
    let steps = vec![region_step(vec![us_mover((1.0, 2.0, 1.0))])];
    let proposed = proposal("explain", "test", "revenue_usd", Some(&["channel"]), &[]);
    let err = validate_llm_planner_action(
        &proposed,
        &args,
        &names(&["region", "channel"]),
        &steps,
        InvestigateInputKind::CsvDatasets,
    )
    .err();
    assert_eq!(err, Some(text("invalid llm action 'explain'")));
}
