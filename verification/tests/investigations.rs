//! Investigations: dimensions, steps, branches and the search through them.

use factorlens::args::{
    BackendArg, InvestigateInputKind, InvestigateOutputFormat, InvestigateWorkflowArgs,
    InvestigationMode, InvestigationPlanner, PostgresSslMode,
};
use factorlens::artifacts::{
    build_investigation_step, needs_inferred_dimensions, pair_segments, read_json_document,
    record_counts,
    resolve_investigation_dimensions, resolve_metric_for_json_artifacts, step_mover_limit,
    top_share, Concentrations, SegmentPair,
};
use factorlens::branches::{
    build_branch_summary_rows, build_investigation_branch_graph, render_branch_graph_mermaid,
};
use factorlens::coverage::{build_investigation_coverage, CoverageFigures};
use factorlens::dimensions::{infer_csv_investigation_dimensions, MetricShares};
use factorlens::drill::select_drill_candidates;
use factorlens::investigation::{InvestigationMover, InvestigationStep};
use factorlens::json::Json;
use factorlens::num::Num;

fn text(s: &str) -> String {
    s.to_string()
}

fn num(x: f64) -> Num {
    Num { bits: x.to_bits() }
}

fn float(n: Num) -> f64 {
    f64::from_bits(n.bits)
}

fn json(source: &str) -> Json {
    read_json_document(source, "artifact.json", "base").expect("valid json")
}

fn investigate_workflow_args() -> InvestigateWorkflowArgs {
    InvestigateWorkflowArgs {
        question: text("why did revenue change"),
        mode: None,
        config: None,
        profile: None,
        profile_config: None,
        base: Some(text("artifacts/base.json")),
        new: Some(text("artifacts/new.json")),
        postgres_url: None,
        postgres_ssl_mode: PostgresSslMode::Prefer,
        postgres_ca_file: None,
        query: None,
        query_file: None,
        metric: None,
        date_column: None,
        time_grain: None,
        period: None,
        anchor_date: None,
        current_start: None,
        current_end: None,
        previous_start: None,
        previous_end: None,
        dimensions: vec![text("region")],
        drill_fields: vec![text("channel")],
        max_depth: 2,
        max_branches: 2,
        min_contribution: num(5.0),
        min_delta_abs: num(0.0),
        min_score_improvement: num(0.0),
        min_slice_rows: 5,
        top_movers: 2,
        planner: InvestigationPlanner::Deterministic,
        planner_backend: BackendArg::Local,
        planner_model: None,
        verbose: false,
        trace: false,
        output_format: InvestigateOutputFormat::Json,
        out: None,
    }
}

fn mover(
    segment: &str,
    records: (u64, u64),
    shares: (f64, f64, f64),
    values: (f64, f64, f64),
) -> InvestigationMover {
    InvestigationMover {
        segment: text(segment),
        base_records: records.0,
        new_records: records.1,
        base_share_pct: num(shares.0),
        new_share_pct: num(shares.1),
        delta_share_pp: num(shares.2),
        base_primary_metric_value: num(values.0),
        new_primary_metric_value: num(values.1),
        delta_primary_metric_value: num(values.2),
    }
}

fn step(
    depth: usize,
    dimension: &str,
    scope: Vec<(String, String)>,
    records: (u64, u64),
    top5: (f64, f64, f64),
    top1: (f64, f64, f64),
    movers: Vec<InvestigationMover>,
) -> InvestigationStep {
    InvestigationStep {
        depth,
        dimension: text(dimension),
        scope,
        primary_metric: text("revenue_usd"),
        base_records: records.0,
        new_records: records.1,
        segment_count: 2,
        top5_concentration_base_pct: num(top5.0),
        top5_concentration_new_pct: num(top5.1),
        top5_concentration_delta_pp: num(top5.2),
        top1_concentration_base_pct: num(top1.0),
        top1_concentration_new_pct: num(top1.1),
        top1_concentration_delta_pp: num(top1.2),
        movers,
    }
}

fn raised(step: &InvestigationStep) -> Vec<Num> {
    step.movers
        .iter()
        .map(|m| num(float(m.delta_primary_metric_value).abs() + f64::EPSILON))
        .collect()
}

fn top_scores(steps: &[InvestigationStep]) -> Vec<Num> {
    steps
        .iter()
        .map(|s| {
            let score = s
                .movers
                .first()
                .map(|m| float(m.delta_primary_metric_value).abs())
                .unwrap_or(0.0);
            num(score + f64::EPSILON)
        })
        .collect()
}

fn moved(p: SegmentPair) -> InvestigationMover {
    mover(
        &p.segment,
        (p.base.records, p.new.records),
        (
            float(p.base.share_pct),
            float(p.new.share_pct),
            float(p.new.share_pct) - float(p.base.share_pct),
        ),
        (
            float(p.base.value),
            float(p.new.value),
            float(p.new.value) - float(p.base.value),
        ),
    )
}

fn share(part: u64, whole: u64) -> f64 {
    if whole == 0 {
        0.0
    } else {
        part as f64 / whole as f64 * 100.0
    }
}

fn json_step(
    args: &InvestigateWorkflowArgs,
    base: &Json,
    new: &Json,
    dimension: &str,
) -> Result<InvestigationStep, String> {
    let metric = resolve_metric_for_json_artifacts(base, new, &args.metric)?;
    let counts = (record_counts(base), record_counts(new));
    let movers: Vec<InvestigationMover> = pair_segments(base, new, &metric)
        .into_iter()
        .map(moved)
        .collect();
    let (b5, n5) = (
        share(counts.0.top5, counts.0.records),
        share(counts.1.top5, counts.1.records),
    );
    let (b1, n1) = (top_share(base, &metric), top_share(new, &metric));
    let concentrations = Concentrations {
        top5_base: num(b5),
        top5_new: num(n5),
        top5_delta: num(n5 - b5),
        top1_base: b1,
        top1_new: n1,
        top1_delta: num(float(n1) - float(b1)),
    };
    Ok(build_investigation_step(
        dimension,
        &[],
        InvestigationMode::ChangeDrivers,
        metric,
        counts,
        concentrations,
        movers,
        step_mover_limit(args),
    ))
}

#[test]
fn select_drill_candidates_respect_thresholds_and_branch_limit() {
    let step = step(
        0,
        "region",
        vec![],
        (100, 100),
        (60.0, 67.0, 7.0),
        (60.0, 67.0, 7.0),
        vec![
            mover("West", (60, 64), (60.0, 64.0, 4.0), (1_000.0, 1_080.0, 80.0)),
            mover("(blank)", (20, 20), (20.0, 20.0, 0.0), (300.0, 300.0, 0.0)),
        ],
    );
    let r = raised(&step);

    let picked = select_drill_candidates(
        &step,
        InvestigationMode::ChangeDrivers,
        num(50.0),
        num(0.0),
        10,
        2,
        &r,
    );
    assert_eq!(picked.len(), 1, "expected one eligible mover");
    assert_eq!(picked[0].segment, "West");

    let none = select_drill_candidates(
        &step,
        InvestigationMode::ChangeDrivers,
        num(120.0),
        num(0.0),
        10,
        2,
        &r,
    );
    assert!(none.is_empty(), "expected threshold to block selection");

    let blocked_by_delta = select_drill_candidates(
        &step,
        InvestigationMode::ChangeDrivers,
        num(50.0),
        num(100.0),
        10,
        2,
        &r,
    );
    assert!(
        blocked_by_delta.is_empty(),
        "expected min_delta_abs threshold to block selection"
    );

    let concentration_ignores_delta_abs = select_drill_candidates(
        &step,
        InvestigationMode::ConcentrationDrivers,
        num(1.0),
        num(100.0),
        10,
        2,
        &r,
    );
    assert_eq!(
        concentration_ignores_delta_abs.len(),
        1,
        "concentration mode should not filter by min_delta_abs"
    );
}

fn branch_steps() -> Vec<InvestigationStep> {
    vec![
        step(
            0,
            "region",
            vec![],
            (100, 100),
            (100.0, 100.0, 0.0),
            (60.0, 62.0, 2.0),
            vec![
                mover("US", (60, 62), (60.0, 62.0, 2.0), (1_000.0, 1_200.0, 200.0)),
                mover("EU", (40, 38), (40.0, 38.0, -2.0), (900.0, 850.0, -50.0)),
            ],
        ),
        step(
            1,
            "discipline",
            vec![],
            (100, 100),
            (100.0, 100.0, 0.0),
            (55.0, 58.0, 3.0),
            vec![
                mover("Medical", (55, 58), (55.0, 58.0, 3.0), (1_100.0, 1_300.0, 200.0)),
                mover("Bio", (45, 42), (45.0, 42.0, -3.0), (800.0, 700.0, -100.0)),
            ],
        ),
        step(
            2,
            "category",
            vec![(text("discipline"), text("Medical"))],
            (58, 58),
            (100.0, 100.0, 0.0),
            (70.0, 72.0, 2.0),
            vec![mover(
                "Oncology",
                (40, 42),
                (70.0, 72.0, 2.0),
                (700.0, 880.0, 180.0),
            )],
        ),
    ]
}

#[test]
fn build_branch_summary_rows_uses_dimension_scoped_root_scores() {
    let steps = branch_steps();
    let rows = build_branch_summary_rows(
        &steps,
        InvestigationMode::ChangeDrivers,
        3,
        &top_scores(&steps),
    );
    assert_eq!(rows.len(), 1);
    assert_eq!(rows[0].root_dimension, "discipline");
    assert_eq!(rows[0].root_segment, "Medical");
    assert_eq!(rows[0].root_score, num(200.0));
}

#[test]
fn edges_lead_from_a_step_into_what_it_found() {
    let steps = branch_steps();
    let (nodes, edges) =
        build_investigation_branch_graph(&steps, InvestigationMode::ChangeDrivers);
    assert_eq!(nodes.len(), 3);
    assert!(edges.iter().all(|e| e.parent < e.child));
    let improvements: Vec<String> = edges.iter().map(|_| text("0.00")).collect();
    let drawn = render_branch_graph_mermaid(&nodes, &edges, &improvements);
    assert!(drawn.contains("Oncology"), "{}", drawn);
}

/// Orders with a day, an identifier, four categories and a revenue.
fn orders(count: usize) -> Vec<Vec<String>> {
    let pick = |xs: &[&str], i: usize| text(xs[i % xs.len()]);
    (0..count)
        .map(|i| {
            vec![
                format!("2026-01-{:02}", i % 28 + 1),
                format!("ORD-{i}"),
                pick(&["North", "South", "East", "West"], i),
                pick(&["Direct", "Partner", "Online"], i / 2),
                pick(&["Core", "Add-on"], i / 3),
                pick(&["Basic", "Standard", "Premium"], i / 5),
                format!("{}", 100 + 7 * i),
            ]
        })
        .collect()
}

#[test]
fn resolve_investigation_dimensions_autodetects_csv_dimensions() {
    let mut args = investigate_workflow_args();
    args.base = Some(text("factorlens_demo_sales_100.csv"));
    args.new = Some(text("factorlens_demo_sales_150.csv"));
    args.metric = Some(text("revenue_usd"));
    args.dimensions = vec![];
    args.drill_fields = vec![];
    let headers: Vec<String> = [
        "order_date",
        "order_id",
        "region",
        "channel",
        "product_line",
        "plan_tier",
        "revenue_usd",
    ]
    .iter()
    .map(|h| text(h))
    .collect();
    let shares = headers
        .iter()
        .map(|_| MetricShares {
            top1: num(0.0),
            top5: num(0.0),
        })
        .collect();
    let kind = InvestigateInputKind::CsvDatasets;
    assert!(needs_inferred_dimensions(&args, kind));
    let inferred = infer_csv_investigation_dimensions(
        &headers,
        &orders(100),
        &headers,
        &orders(150),
        &args.metric,
        &shares,
    )
    .expect("dates that can be told")
    .expect("expected csv dimension inference to succeed");
    let (top, drills) = resolve_investigation_dimensions(&args, kind, None, None, &inferred)
        .expect("expected csv dimension inference to succeed");
    assert_eq!(top, "region");
    assert_eq!(
        drills,
        vec![text("channel"), text("product_line"), text("plan_tier")]
    );
}

#[test]
fn resolve_investigation_dimensions_rejects_json_dimension_mismatch() {
    let mut args = investigate_workflow_args();
    args.dimensions = vec![text("channel")];
    let base = json("{\"group_by\": [\"region\"]}");
    let new = json("{\"group_by\": [\"region\"]}");
    let err = resolve_investigation_dimensions(
        &args,
        InvestigateInputKind::JsonArtifacts,
        Some(&base),
        Some(&new),
        &vec![],
    )
    .expect_err("expected mismatch to fail");
    assert!(
        err.contains("--dimensions must match artifact grouping"),
        "unexpected error: {}",
        err
    );
}

#[test]
fn resolve_investigation_dimensions_rejects_artifact_group_mismatch() {
    let mut args = investigate_workflow_args();
    args.dimensions = vec![];
    let base = json("{\"group_by\": [\"region\"]}");
    let new = json("{\"group_by\": [\"channel\"]}");
    let err = resolve_investigation_dimensions(
        &args,
        InvestigateInputKind::JsonArtifacts,
        Some(&base),
        Some(&new),
        &vec![],
    )
    .expect_err("expected artifact mismatch to fail");
    assert!(
        err.contains("base/new artifacts use different group_by dimensions"),
        "unexpected error: {}",
        err
    );
}

#[test]
fn investigate_step_json_mode_errors_when_metric_missing() {
    let mut args = investigate_workflow_args();
    args.metric = Some(text("revenue_usd"));
    let base = json(
        r#"{"records": 10, "top5_count": 5, "primary_metric": "profit_usd",
            "metrics": ["profit_usd"], "group_by": ["region"],
            "groups": [{"group":"US", "count":5, "count_share_pct":50.0, "profit_usd":100.0}]}"#,
    );
    let new = json(
        r#"{"records": 10, "top5_count": 5, "primary_metric": "profit_usd",
            "metrics": ["profit_usd"], "group_by": ["region"],
            "groups": [{"group":"US", "count":5, "count_share_pct":50.0, "profit_usd":130.0}]}"#,
    );
    let err = json_step(&args, &base, &new, "region").expect_err("expected missing metric to fail");
    assert!(
        err.contains("does not contain metric 'revenue_usd'"),
        "unexpected error: {}",
        err
    );
}

#[test]
fn investigate_step_json_mode_errors_when_primary_metric_mismatch_without_metric() {
    let mut args = investigate_workflow_args();
    args.metric = None;
    let base = json(
        r#"{"records": 10, "top5_count": 5, "primary_metric": "revenue_usd",
            "metrics": ["revenue_usd"], "group_by": ["region"],
            "groups": [{"group":"US", "count":5, "count_share_pct":50.0, "revenue_usd":100.0}]}"#,
    );
    let new = json(
        r#"{"records": 10, "top5_count": 5, "primary_metric": "profit_usd",
            "metrics": ["profit_usd"], "group_by": ["region"],
            "groups": [{"group":"US", "count":5, "count_share_pct":50.0, "profit_usd":130.0}]}"#,
    );
    let err = json_step(&args, &base, &new, "region")
        .expect_err("expected primary metric mismatch to fail");
    assert!(
        err.contains("base/new artifacts have different primary_metric values"),
        "unexpected error: {}",
        err
    );
}

#[test]
fn investigation_step_uses_max_branches_for_candidate_capacity() {
    let mut args = investigate_workflow_args();
    args.top_movers = 1;
    args.max_branches = 3;
    let base = json(
        r#"{"records": 100, "top5_count": 50, "primary_metric": "revenue_usd",
            "metrics": ["revenue_usd"], "group_by": ["region"],
            "groups": [
                {"group":"A", "count":34, "count_share_pct":34.0, "revenue_usd":100.0},
                {"group":"B", "count":33, "count_share_pct":33.0, "revenue_usd":90.0},
                {"group":"C", "count":33, "count_share_pct":33.0, "revenue_usd":80.0}
            ]}"#,
    );
    let new = json(
        r#"{"records": 100, "top5_count": 60, "primary_metric": "revenue_usd",
            "metrics": ["revenue_usd"], "group_by": ["region"],
            "groups": [
                {"group":"A", "count":30, "count_share_pct":30.0, "revenue_usd":210.0},
                {"group":"B", "count":30, "count_share_pct":30.0, "revenue_usd":180.0},
                {"group":"C", "count":40, "count_share_pct":40.0, "revenue_usd":120.0}
            ]}"#,
    );
    let step = json_step(&args, &base, &new, "region").expect("step");
    assert_eq!(
        step.movers.len(),
        3,
        "movers should cover max_branches candidates even when top_movers is lower"
    );
}

#[test]
fn a_document_that_is_no_json_is_refused() {
    let err = read_json_document("{", "a.json", "new").err().unwrap();
    assert!(err.starts_with("failed to parse new json 'a.json': "), "{}", err);
}

#[test]
fn coverage_passes_over_steps_without_movers() {
    let mut steps = branch_steps();
    steps[1].movers = vec![];
    let figures: Vec<CoverageFigures> = (0..3)
        .map(|i| CoverageFigures {
            explained_pct: num(10.0 * i as f64),
            remaining: num(100.0 + i as f64),
        })
        .collect();
    let c = build_investigation_coverage(&steps, num(-190.0), figures[0], &figures);
    assert_eq!(float(c.total_delta_abs), 190.0);
    assert_eq!(c.top_level_strongest_segment, Some(text("US")));
    assert_eq!(c.step_coverage.len(), 2);
    assert_eq!(c.step_coverage[1].step_index, 2);
    assert_eq!(float(c.step_coverage[0].residual_delta_abs_after_step), 0.0);
    assert_eq!(float(c.step_coverage[1].residual_delta_abs_after_step), 102.0);
}
