//! Analyses put together: ranking, alerts, insights, windows and briefs.

use factorlens::alerts::AlertEvalContext;
use factorlens::analysis::{
    compose_brief, find_insights, frequent_words, judge_rule, list_alerts, order_by_value,
    order_by_value_ascending, rank_analysis, read_alert_rules, reorder_by_value, AlertFigures,
    Measured, RuleFigures,
};
use factorlens::args::{
    AggKind, AnalyzeArgs, OutputFormat, PercentileKind, PeriodPreset, PostgresSslMode, TimeGrain,
};
use factorlens::brief::{render_brief, MetricCell, PeriodLine, SegmentLine};
use factorlens::dates::Date;
use factorlens::num::Num;
use factorlens::periods::{PeriodCompareConfig, WindowSet};
use factorlens::plan::{check_analysis, plan_analysis, AnalysisPlan, AnalysisRequest};
use factorlens::segments::{date_rows, group_rows, segment_cells, Grouping, Ranked};
use factorlens::turns::{
    compose_period, count_turns, rows_of_first_five, take_turns, MeasuredTurns,
};
use factorlens::validation::write_validation;

fn text(s: &str) -> String {
    s.to_string()
}

fn names(xs: &[&str]) -> Vec<String> {
    xs.iter().map(|x| x.to_string()).collect()
}

fn num(x: f64) -> Num {
    Num { bits: x.to_bits() }
}

fn nums(xs: &[f64]) -> Vec<Num> {
    xs.iter().map(|x| num(*x)).collect()
}

fn day(year: i32, month: u32, day: u32) -> Date {
    Date { year, month, day }
}

fn table_options() -> AnalyzeArgs {
    AnalyzeArgs {
        input: None,
        postgres_url: None,
        postgres_ssl_mode: PostgresSslMode::Prefer,
        postgres_ca_file: None,
        query: None,
        query_file: None,
        profile: None,
        profile_config: None,
        group_by: vec![],
        auto_group_k: 5,
        metrics: vec![],
        count_only: false,
        agg: AggKind::Sum,
        percentiles: vec![],
        normalize_text_groups: false,
        word_freq: false,
        date_column: None,
        time_grain: None,
        period: None,
        anchor_date: None,
        current_start: None,
        current_end: None,
        previous_start: None,
        previous_end: None,
        where_clauses: vec![],
        exclude_blank_groups: false,
        rank_by: None,
        top: 20,
        top_insights: 0,
        opportunity_min_records: 2,
        min_records: 1,
        alert_top5_share: None,
        alert_blank_share: None,
        alert_rule: vec![],
        output_format: OutputFormat::Both,
        out: None,
    }
}

fn request(args: &AnalyzeArgs, date_column: Option<&str>) -> AnalysisRequest {
    AnalysisRequest {
        group_by: args.group_by.clone(),
        auto_group_k: args.auto_group_k,
        metrics: args.metrics.clone(),
        count_only: args.count_only,
        rank_by: args.rank_by.clone(),
        where_clauses: args.where_clauses.clone(),
        date_column: date_column.map(text),
    }
}

/// Sales by region: four in the West, two in the East, one without a region.
fn sales() -> (Vec<String>, Vec<Vec<String>>) {
    let headers = names(&["region", "revenue", "day"]);
    let rows = vec![
        names(&["West", "10", "2026-01-05"]),
        names(&["East", "100", "2026-01-06"]),
        names(&["West", "20", "2026-02-05"]),
        names(&["", "1", "2026-02-06"]),
        names(&["West", "30", "2026-02-07"]),
        names(&["East", "50", "2026-02-08"]),
        names(&["West", "40", "2026-03-01"]),
    ];
    (headers, rows)
}

fn options() -> AnalyzeArgs {
    let mut args = table_options();
    args.group_by = names(&["region"]);
    args.metrics = names(&["revenue"]);
    args.min_records = 1;
    args.top_insights = 0;
    args.opportunity_min_records = 1;
    args.alert_rule = vec![];
    args
}

fn planned(args: &AnalyzeArgs, date_column: Option<&str>) -> (AnalysisPlan, Grouping) {
    let (headers, rows) = sales();
    let plan = plan_analysis(&headers, &rows, &request(args, date_column)).expect("a plan");
    let grouping = group_rows(&plan, &rows, false, false);
    (plan, grouping)
}

fn keys(grouping: &Grouping, ranked: &[Ranked]) -> Vec<String> {
    ranked
        .iter()
        .map(|r| grouping.segments[r.segment].key.clone())
        .collect()
}

fn context(top5: f64, blank: f64) -> AlertEvalContext {
    AlertEvalContext {
        top5_record_share_pct: num(top5),
        blank_share_pct: num(blank),
        segments: num(3.0),
        records: num(7.0),
    }
}

fn rule(threshold: f64, distance: f64, actual: &str) -> RuleFigures {
    RuleFigures {
        threshold: num(threshold),
        distance: num(distance),
        actual: text(actual),
    }
}

fn alert_figures(rules: Vec<RuleFigures>) -> AlertFigures {
    AlertFigures {
        context: context(100.0, 14.0),
        top5_share: text("100.0"),
        top5_threshold: text("60.0"),
        blank_share: text("14.0"),
        blank_threshold: text("20.0"),
        rules,
    }
}

fn measured_line(group: &str, count: u64, share: &str, per_record: &str) -> SegmentLine {
    let cell = |metric: &str| MetricCell {
        metric: text(metric),
        value: text("0.00"),
        share: text("0.0"),
    };
    SegmentLine {
        cells: vec![cell("revenue"), cell("revenue_p90")],
        ..line(group, count, share, per_record)
    }
}

fn line(group: &str, count: u64, share: &str, per_record: &str) -> SegmentLine {
    SegmentLine {
        group: text(group),
        count,
        share: text(share),
        primary: text("0.00"),
        primary_share: text("0.0"),
        per_record: text(per_record),
        cells: vec![],
    }
}

#[test]
fn segments_are_ranked_by_records_or_by_value() {
    let (_, grouping) = planned(&options(), None);
    let by_records = rank_analysis(&grouping.segments, &nums(&[0.0, 0.0, 0.0]), 1, false);
    assert_eq!(keys(&grouping, &by_records), names(&["West", "East", "(blank)"]));
    let revenue: Vec<Num> = grouping
        .segments
        .iter()
        .map(|s| {
            num(match s.key.as_str() {
                "East" => 150.0,
                "West" => 100.0,
                _ => 1.0,
            })
        })
        .collect();
    let by_revenue = rank_analysis(&grouping.segments, &revenue, 2, true);
    assert_eq!(keys(&grouping, &by_revenue), names(&["East", "West"]));
    assert_eq!(order_by_value(&nums(&[1.0, 3.0, 2.0, 3.0])), vec![1, 3, 2, 0]);
    assert_eq!(PercentileKind::P50.quantile(), num(0.5));
    assert_eq!(PercentileKind::P90.quantile(), num(0.9));
    assert_eq!(
        order_by_value_ascending(&nums(&[1.0, -3.0, 2.0, -3.0])),
        vec![1, 3, 0, 2]
    );
}

#[test]
fn alerts_are_listed_in_order() {
    let mut args = options();
    args.alert_top5_share = Some(num(60.0));
    args.alert_blank_share = Some(num(20.0));
    args.alert_rule = names(&[" records > 5 ", "segments<2", "top5_share>=100"]);
    let rules = read_alert_rules(&args.alert_rule).expect("rules");
    assert_eq!(rules.len(), 3);
    let figures = alert_figures(vec![
        rule(5.0, 2.0, "7.000"),
        rule(2.0, 1.0, "3.000"),
        rule(100.0, 0.0, "100.000"),
    ]);
    assert_eq!(
        list_alerts(&args, &rules, &figures),
        names(&[
            "High concentration: top 5 segments account for 100.0% of records (threshold 60.0%).",
            "Rule triggered: records > 5 (actual=7.000)",
            "Rule triggered: top5_share>=100 (actual=100.000)",
        ])
    );
    assert!(!judge_rule(&rules[1], &figures.context, &figures.rules[1]));
    args.alert_top5_share = None;
    args.alert_rule = vec![];
    assert!(list_alerts(&args, &vec![], &alert_figures(vec![])).is_empty());
    assert_eq!(
        read_alert_rules(&names(&["records>1", " ", "nonsense"])).err(),
        Some(text("empty --alert-rule"))
    );
}

#[test]
fn insights_come_where_they_are_asked_for() {
    let mut args = options();
    let lines = vec![
        line("West", 4, "57.1", "25.00"),
        line("East", 2, "28.6", "75.00"),
        line("(blank)", 1, "14.3", "1.00"),
    ];
    let shares = nums(&[57.1, 28.6, 14.3]);
    let per_record = nums(&[25.0, 75.0, 1.0]);
    let figures = alert_figures(vec![]);
    let leading = names(&["West", "East", "(blank)"]);
    let told = |args: &AnalyzeArgs, primary: &Option<String>| {
        find_insights(args, primary, &lines, &shares, &per_record, &figures, &leading)
    };
    assert_eq!(told(&args, &None), (vec![], vec![]));
    args.top_insights = 1;
    let revenue = Some(text("revenue"));
    assert_eq!(
        told(&args, &revenue),
        (
            names(&["`West` concentration: 4 records (57.1% of total records), 0.0% of total revenue."]),
            names(&["`East` has high revenue per record (75.00) across 2 records."]),
        )
    );
    args.opportunity_min_records = 3;
    assert_eq!(
        told(&args, &revenue).1,
        names(&["`West` has high revenue per record (25.00) across 4 records."])
    );
    assert_eq!(
        told(&args, &None).1,
        names(&["Prioritize the top segments first: `West`."])
    );
}

#[test]
fn of_equal_values_per_record_the_larger_share_comes_first() {
    let mut args = options();
    args.top_insights = 2;
    let lines = vec![
        line("North", 2, "25.0", "30.00"),
        line("South", 1, "12.5", "10.00"),
        line("East", 5, "62.5", "30.00"),
    ];
    let (_, opportunities) = find_insights(
        &args,
        &Some(text("revenue")),
        &lines,
        &nums(&[25.0, 12.5, 62.5]),
        &nums(&[30.0, 10.0, 30.0]),
        &alert_figures(vec![]),
        &names(&["North", "South", "East"]),
    );
    assert_eq!(
        opportunities,
        names(&[
            "`East` has high revenue per record (30.00) across 5 records.",
            "`North` has high revenue per record (30.00) across 2 records.",
        ])
    );
    let by_share = order_by_value(&nums(&[25.0, 12.5, 62.5]));
    assert_eq!(by_share, vec![2, 0, 1]);
    assert_eq!(reorder_by_value(&by_share, &nums(&[30.0, 10.0, 30.0])), vec![2, 0, 1]);
    assert_eq!(reorder_by_value(&by_share, &nums(&[1.0, 3.0, 2.0])), vec![1, 2, 0]);
}

#[test]
fn cells_of_a_segment_are_those_of_its_own_rows() {
    let (_, rows) = sales();
    let (plan, _) = planned(&options(), None);
    let grouping = group_rows(&plan, &rows, false, true);
    assert_eq!(grouping.rows, vec![0, 1, 2, 4, 5, 6]);
    let cells = |key: &str| {
        let place = grouping
            .segments
            .iter()
            .position(|s| s.key == key)
            .expect("a segment");
        segment_cells(&grouping, &rows, place, 1)
    };
    assert_eq!(cells("West"), names(&["10", "20", "30", "40"]));
    assert_eq!(cells("East"), names(&["100", "50"]));
    assert_eq!(segment_cells(&grouping, &rows, 0, 9).concat(), "");
}

#[test]
fn a_brief_is_put_together() {
    let (_, rows) = sales();
    let mut args = options();
    args.word_freq = true;
    args.percentiles = vec![PercentileKind::P90];
    args.top_insights = 1;
    args.alert_rule = names(&["records>5"]);
    let (plan, grouping) = planned(&args, None);
    let rules = read_alert_rules(&args.alert_rule).expect("rules");
    let ranked = rank_analysis(&grouping.segments, &nums(&[0.0, 0.0, 0.0]), args.min_records, false);
    let measured = Measured {
        lines: vec![
            measured_line("West", 4, "57.1", "25.00"),
            measured_line("East", 2, "28.6", "75.00"),
            measured_line("(blank)", 1, "14.3", "1.00"),
        ],
        shares: nums(&[57.1, 28.6, 14.3]),
        per_record: nums(&[25.0, 75.0, 1.0]),
        alerts: alert_figures(vec![rule(5.0, 2.0, "7.000")]),
        top5_primary: text("251.00"),
        top5_primary_share: text("100.0"),
        top5_primary_average: text("83.67"),
        period: None,
    };
    let b = compose_brief(
        "sales.csv", &args, &plan, &rows, &grouping, &ranked, &rules, measured,
    );
    assert_eq!((b.records, b.segments, b.top5_count), (7, 3, 7));
    assert_eq!(b.groups, names(&["region"]));
    assert_eq!(b.metrics, names(&["revenue"]));
    assert_eq!(b.display_metrics, names(&["revenue", "revenue_p90"]));
    assert_eq!(b.percentiles, names(&["p90"]));
    assert_eq!(b.primary, Some(text("revenue")));
    assert_eq!(b.top5_names, names(&["West", "East", "(blank)"]));
    assert_eq!(b.largest.as_ref().map(|s| s.group.as_str()), Some("West"));
    assert_eq!(b.alerts, names(&["Rule triggered: records>5 (actual=7.000)"]));
    assert_eq!(b.rows.len(), 3);
    assert_eq!(b.risks.len(), 1);
    assert_eq!(
        b.opportunities,
        names(&["`East` has high revenue per record (75.00) across 2 records."])
    );
    let page = render_brief(&b);
    assert!(page.contains("- Records (after filters): 7\n"), "{}", page);
    assert!(page.contains("- Input: sales.csv\n"), "{}", page);
    assert_eq!(b.top_words, frequent_words(&plan, &rows, &grouping.rows));
}

#[test]
fn segments_turn_between_two_windows() {
    let (_, rows) = sales();
    let args = options();
    let (plan, grouping) = planned(&args, Some("day"));
    let cfg = PeriodCompareConfig {
        date_column: text("day"),
        windows: WindowSet {
            current_start: day(2026, 2, 1),
            current_end: day(2026, 2, 28),
            previous_start: day(2026, 1, 1),
            previous_end: day(2026, 1, 31),
            time_grain: Some(TimeGrain::Month),
            period: Some(PeriodPreset::Last),
        },
    };
    let dated = date_rows(&plan, &rows, &grouping.rows, cfg.windows, false).expect("dates");
    assert_eq!(dated.len(), 6);
    let turns = take_turns(&dated);
    let seen: Vec<(&str, Vec<usize>, Vec<usize>)> = turns
        .iter()
        .map(|t| (t.key.as_str(), t.current.clone(), t.previous.clone()))
        .collect();
    assert_eq!(
        seen,
        vec![
            ("(blank)", vec![3], vec![]),
            ("East", vec![5], vec![1]),
            ("West", vec![2, 4], vec![0]),
        ]
    );
    assert_eq!(count_turns(&turns), (3, 2));
    assert_eq!(rows_of_first_five(&turns, &vec![2, 1]), (3, 2));
    let turn_line = |group: &str, previous_count: u64, current_count: u64| PeriodLine {
        group: text(group),
        previous_count,
        current_count,
        share_change: text("+0.0"),
        previous_value: text("0.00"),
        current_value: text("0.00"),
        delta: text("0.00"),
        percent: text("+0.0"),
    };
    let b = compose_period(
        &cfg,
        &plan,
        &dated,
        &turns,
        MeasuredTurns {
            lines: vec![
                turn_line("(blank)", 0, 1),
                turn_line("East", 1, 1),
                turn_line("West", 1, 2),
            ],
            share_changes: nums(&[25.0, 25.0, 30.0]),
            deltas: nums(&[1.0, -50.0, 40.0]),
            previous_top5_share: text("100.0"),
            current_top5_share: text("100.0"),
            top5_share_change: text("+0.0"),
            total_falls: true,
            total_percent: text("8.2"),
            previous_total: text("110.00"),
            current_total: text("101.00"),
            total_delta: text("-9.00"),
        },
    );
    let groups = |lines: &[PeriodLine]| -> Vec<String> {
        lines.iter().map(|l| l.group.clone()).collect()
    };
    assert_eq!(groups(&b.by_share), names(&["West", "(blank)", "East"]));
    assert_eq!(groups(&b.by_delta), names(&["East", "(blank)", "West"]));
    assert_eq!((b.current_records, b.previous_records), (4, 2));
    assert_eq!((b.current_segments, b.previous_segments), (3, 2));
    assert_eq!(b.previous_total, "110.00");
}

#[test]
fn a_checked_analysis_is_told_line_by_line() {
    let (headers, rows) = sales();
    let mut args = options();
    args.percentiles = vec![PercentileKind::P50];
    args.alert_rule = names(&["records>5"]);
    let read = |args: &AnalyzeArgs| {
        check_analysis(&headers, &rows, &request(args, None), &args.alert_rule).expect("checked")
    };
    assert_eq!(
        write_validation("sales.csv", &args, &read(&args), &None, headers.len()),
        names(&[
            "Analyze validation: OK",
            "- Input: sales.csv",
            "- Profile: (none)",
            "- Groups: region",
            "- Metrics: revenue",
            "- Rank by: count/default",
            "- Aggregation: Sum",
            "- Percentiles: p50",
            "- Filters: none",
            "- Alert rules: 1",
            "- Period compare: disabled",
            "- Headers detected: 3",
        ])
    );
    args.count_only = true;
    args.rank_by = Some(text("count"));
    args.where_clauses = names(&["region=West"]);
    args.profile = Some(text("exec"));
    let period = Some(PeriodCompareConfig {
        date_column: text("day"),
        windows: WindowSet {
            current_start: day(2026, 2, 1),
            current_end: day(2026, 2, 28),
            previous_start: day(2026, 1, 1),
            previous_end: day(2026, 1, 31),
            time_grain: None,
            period: None,
        },
    });
    let lines = write_validation("sales.csv", &args, &read(&args), &period, 3);
    assert_eq!(lines[2], "- Profile: exec");
    assert_eq!(lines[4], "- Metrics: disabled via --count-only");
    assert_eq!(lines[5], "- Rank by: count");
    assert_eq!(lines[8], "- Filters: region=West");
    assert_eq!(
        lines[10],
        "- Period compare: enabled (day, current=2026-02-01..2026-02-28, previous=2026-01-01..2026-01-31)"
    );
}
