//! Pages of a table analysis, of a decomposition and of suggestions.

use factorlens::args::{AggKind, PercentileKind, PeriodPreset, SampleMode, TimeGrain};
use factorlens::brief::{
    blank_alert, concentration_alert, find_opportunities, find_risks, plain_opportunities,
    render_brief, rule_alert, shown_metrics, write_filters, Brief, MetricCell, PeriodBrief,
    PeriodLine, SegmentLine,
};
use factorlens::dates::Date;
use factorlens::decomposition::{
    can_fit, categorical_signal, choose_identity, decomposition_mode, identity_text,
    looks_for_signals, measured_columns, measured_name, numeric_signal, pick_contributions,
    pretty_signal_name, rank_signals, render_analyze_drivers_markdown,
    render_investigate_markdown, residual_is_small, Contribution, ContributionLine,
    DriverIdentityOp, DriverLine, DriversBrief, IdentityFit, InvestigateBrief, ResidualSignal,
    ValueResidual,
};
use factorlens::drivers::{DriverAgg, DriverSpec};
use factorlens::num::Num;
use factorlens::periods::WindowSet;
use factorlens::suggest::{
    collect_warnings, profile_column, profile_table, suggest_analysis, suggest_date_column,
    suggest_groups, suggest_metrics, suggest_report_markdown, AnalyzeSuggestReport, ColumnTexts,
    SuggestColumn, SuggestRequest,
};
use factorlens::table::parse_where_filters;

fn text(s: &str) -> String {
    s.to_string()
}

fn names(xs: &[&str]) -> Vec<String> {
    xs.iter().map(|x| text(x)).collect()
}

fn num(x: f64) -> Num {
    Num { bits: x.to_bits() }
}

fn segment(group: &str, count: u64, share: &str, value: &str, value_share: &str) -> SegmentLine {
    SegmentLine {
        group: text(group),
        count,
        share: text(share),
        primary: text(value),
        primary_share: text(value_share),
        per_record: text("100.00"),
        cells: vec![MetricCell {
            metric: text("revenue"),
            value: text(value),
            share: text(value_share),
        }],
    }
}

fn brief() -> Brief {
    let west = segment("West", 7, "70.0", "700.00", "63.6");
    let east = segment("East", 3, "30.0", "400.00", "36.4");
    Brief {
        input: text("orders.csv"),
        records: 10,
        segments: 2,
        groups: names(&["region"]),
        profile: None,
        filters: vec![],
        exclude_blank_groups: false,
        rank: None,
        top: 5,
        top_insights: 0,
        opportunity_min_records: 2,
        min_records: 1,
        count_only: false,
        agg: AggKind::Sum,
        percentiles: vec![],
        normalize_text_groups: false,
        metrics: names(&["revenue"]),
        display_metrics: names(&["revenue"]),
        primary: Some(text("revenue")),
        largest: Some(west.clone()),
        top5_share: text("100.0"),
        top5_count: 10,
        top5_names: names(&["West", "East"]),
        top5_primary: text("1_100.00"),
        top5_primary_share: text("100.0"),
        top5_primary_average: text("550.00"),
        period: None,
        alerts: vec![],
        top_words: vec![],
        rows: vec![west, east],
        risks: vec![],
        opportunities: vec![],
    }
}

#[test]
fn a_brief_shows_the_largest_segments() {
    let expected = "# Analysis Brief

- Input: orders.csv
- Records (after filters): 10
- Segments (distinct grouped combinations): 2
- Grouped by: region
- Filters: none
- Blank groups: included
- Ranking: count
- Top rows shown: 5
- Minimum records per segment: 1
- Metric aggregation: Sum
- Metrics: revenue

## Executive Summary

- Largest segment is `West` with 70.0% of records and 63.6% of total revenue.
- Top 5 segments represent 100.0% of records and 100.0% of revenue.
- Top 5 segment names: `West`, `East`.

## Insights

- Top segment by count: `West` with 7 records (70.0% of all records).
- Top segment contributes 700.00 `revenue` (63.6% of total `revenue`).
- Concentration: top 5 segments account for 10 records (100.0% of all records).
- Concentration by `revenue`: top 5 segments represent 1_100.00 (100.0% of total).

## Top Groups

| region | Records | Record Share | revenue | revenue Share |
|---|---:|---:|---:|---:|
| West | 7 | 70.0% | 700.00 | 63.6% |
| East | 3 | 30.0% | 400.00 | 36.4% |
";
    assert_eq!(render_brief(&brief()), expected);
}

#[test]
fn a_brief_of_means_speaks_of_averages() {
    let mut b = brief();
    b.agg = AggKind::Mean;
    b.profile = Some(text("exec"));
    b.filters = names(&["region=West"]);
    b.exclude_blank_groups = true;
    b.rank = Some(text("revenue"));
    b.normalize_text_groups = true;
    b.percentiles = names(&["p50"]);
    b.alerts = names(&["Rule triggered: records > 3 (actual=10.000)"]);
    b.top_words = vec![(text("urgent"), 4)];
    b.top_insights = 1;
    b.risks = names(&["a risk"]);
    b.opportunities = names(&["a chance"]);
    let page = render_brief(&b);
    for line in [
        "- Profile: exec\n- Filters: region=West\n- Blank groups: excluded\n- Ranking: revenue\n",
        "- Top insights requested: 1\n- Opportunity min records: 2\n",
        "- Metric aggregation: Mean\n- Extra percentile columns: p50\n- Text normalization for name/title groups: enabled\n",
        "with 70.0% of records and 700.00 revenue (Mean).\n",
        " and average 550.00 revenue across top 5 segments (Mean).\n",
        "## Alerts\n\n- Rule triggered: records > 3 (actual=10.000)\n\n",
        "## Top Words\n\n- `urgent`: 4\n\n",
        "- Top segment mean `revenue` is 700.00.\n",
        "- Top 5 segments average `revenue` as 550.00 (Mean).\n",
        "## Top Insights\n\n### Risks\n\n- a risk\n\n### Opportunities\n\n- a chance\n\n",
        "| region | Records | Record Share | revenue |\n|---|---:|---:|---:|\n| West | 7 | 70.0% | 700.00 |\n",
    ] {
        assert!(page.contains(line), "{}\n---\n{}", line, page);
    }
}

#[test]
fn a_brief_compares_two_windows() {
    let day = |month: u32, day: u32| Date {
        year: 2026,
        month,
        day,
    };
    let line = |group: &str, change: &str| PeriodLine {
        group: text(group),
        previous_count: 4,
        current_count: 6,
        share_change: text(change),
        previous_value: text("10.00"),
        current_value: text("7.00"),
        delta: text("-3.00"),
        percent: text("-30.0"),
    };
    let mut b = brief();
    b.period = Some(PeriodBrief {
        date_column: text("day"),
        windows: WindowSet {
            time_grain: Some(TimeGrain::Month),
            period: Some(PeriodPreset::Last),
            current_start: day(2, 1),
            current_end: day(2, 28),
            previous_start: day(1, 1),
            previous_end: day(1, 31),
        },
        groups: names(&["region"]),
        current_records: 6,
        previous_records: 9,
        previous_top5_share: text("80.0"),
        current_top5_share: text("90.0"),
        top5_share_change: text("+10.0"),
        previous_segments: 3,
        current_segments: 2,
        total_falls: true,
        total_percent: text("30.0"),
        previous_total: text("10.00"),
        current_total: text("7.00"),
        total_delta: text("-3.00"),
        by_share: vec![line("West", "+5.0")],
        by_delta: vec![line("West", "+5.0")],
    });
    let page = render_brief(&b);
    let expected = "## Period Comparison

- Date column: `day`
- Window mode: Month / Last
- Current window: 2026-02-01 to 2026-02-28 (records=6)
- Previous window: 2026-01-01 to 2026-01-31 (records=9)

### Executive Delta

- Top-5 concentration changed from 80.0% to 90.0% (+10.0 pp).
- Segment count changed from 3 to 2 (-1).

### Top Concentration Changes

1. `West`   4 -> 6 records (+5.0 pp)

- revenue \u{2193} 30.0% (10.00 -> 7.00, delta=-3.00).
- Group drivers (largest declines) by `region`:
  - `West`: 10.00 -> 7.00 (delta=-3.00, -30.0%)

";
    assert!(page.contains(expected), "{}", page);
    b.primary = None;
    assert!(render_brief(&b).contains("- Record delta: -3 (current=6 vs previous=9).\n"));
}

#[test]
fn risks_and_opportunities_are_the_first_segments() {
    let items = vec![
        segment("West", 7, "70.0", "700.00", "63.6"),
        segment("(blank)", 5, "20.0", "10.00", "1.0"),
        segment("East", 1, "10.0", "400.00", "36.4"),
        segment("North", 3, "5.0", "40.00", "3.6"),
    ];
    assert_eq!(
        find_risks(&items, &vec![0, 1, 2, 3], &Some(text("revenue")), AggKind::Sum, 1),
        names(&["`West` concentration: 7 records (70.0% of total records), 63.6% of total revenue."])
    );
    assert_eq!(
        find_risks(&items, &vec![0], &None, AggKind::Sum, 1),
        names(&["`West` concentration: 7 records (70.0% of total records)."])
    );
    assert_eq!(
        find_opportunities(&items, &vec![0, 1, 2, 3], "revenue", 2, 2),
        names(&[
            "`West` has high revenue per record (100.00) across 7 records.",
            "`North` has high revenue per record (100.00) across 3 records.",
        ])
    );
    assert_eq!(
        find_opportunities(&items, &vec![2, 3, 0], "revenue", 2, 1),
        names(&["`North` has high revenue per record (100.00) across 3 records."])
    );
    assert_eq!(
        plain_opportunities(num(39.0), "39.0", &names(&["a", "b"]), 1),
        names(&[
            "Low concentration tail opportunity: top 5 segments are 39.0% of records.",
            "Prioritize the top segments first: `a`.",
        ])
    );
    assert_eq!(
        plain_opportunities(num(40.0), "40.0", &vec![], 1),
        Vec::<String>::new()
    );
}

#[test]
fn alerts_come_at_their_thresholds() {
    assert_eq!(
        concentration_alert(num(60.0), "60.0", Some(num(60.0)), "60.0"),
        Some(text("High concentration: top 5 segments account for 60.0% of records (threshold 60.0%)."))
    );
    assert_eq!(
        concentration_alert(num(59.9), "59.9", Some(num(60.0)), "60.0"),
        None
    );
    assert_eq!(concentration_alert(num(60.0), "60.0", None, ""), None);
    assert_eq!(
        blank_alert(num(7.0), "7.0", Some(num(5.0)), "5.0"),
        Some(text("High blank-segment share: 7.0% of records are grouped as (blank) (threshold 5.0%)."))
    );
    assert_eq!(
        rule_alert("records > 3", "10.000"),
        "Rule triggered: records > 3 (actual=10.000)"
    );
}

#[test]
fn percentile_columns_follow_the_metrics() {
    assert_eq!(
        shown_metrics(
            &names(&["a", "b"]),
            &vec![PercentileKind::P50, PercentileKind::P90]
        ),
        names(&["a", "b", "a_p50", "a_p90", "b_p50", "b_p90"])
    );
    let filters =
        parse_where_filters(&names(&["region=West"]), &names(&["region"])).expect("filters");
    assert_eq!(write_filters(&filters), names(&["region=West"]));
}

#[test]
fn the_closest_identity_is_chosen() {
    let fit = |left: usize, error: f64, rows: usize| IdentityFit {
        left,
        right: 9,
        op: DriverIdentityOp::Multiply,
        error: num(error),
        rows,
    };
    let best = choose_identity(&vec![
        fit(0, 0.10, 25),
        fit(1, 0.01, 19),
        fit(2, 0.02, 20),
        fit(3, f64::NAN, 40),
    ]);
    assert_eq!(best.expect("an identity").left, 2);
    assert!(choose_identity(&vec![fit(0, 0.16, 25)]).is_none());
    assert_eq!(
        identity_text("revenue", "units", "price", DriverIdentityOp::Multiply),
        "revenue \u{2248} units * price"
    );
    assert_eq!(
        identity_text("rate", "won", "seen", DriverIdentityOp::Divide),
        "rate \u{2248} won / seen"
    );
}

#[test]
fn contributions_are_reported_by_weight() {
    let entry = |name: &str, percent: f64, delta: f64, agg: Option<DriverAgg>| Contribution {
        name: text(name),
        percent: num(percent),
        delta: num(delta),
        agg,
    };
    let shown = |all: Vec<Contribution>, top: usize| -> Vec<String> {
        pick_contributions(all, top)
            .into_iter()
            .map(|c| c.name)
            .collect()
    };
    let all = vec![
        entry("small", 1.0, 5.0, Some(DriverAgg::Sum)),
        entry("customers", -9.0, 1.0, Some(DriverAgg::CountDistinct)),
        entry("large", -4.0, 5.0, None),
    ];
    assert_eq!(shown(all.clone(), 3), names(&["large", "small"]));
    assert_eq!(shown(all, 1), names(&["large"]));
    let only = vec![entry("customers", 2.0, 1.0, Some(DriverAgg::CountDistinct))];
    assert_eq!(shown(only, 3), names(&["customers"]));
}

#[test]
fn models_are_fitted_to_measured_columns() {
    let spec = |label: &str, col_idx: Option<usize>, agg: DriverAgg| DriverSpec {
        label: text(label),
        col_idx,
        agg,
    };
    let specs = vec![
        spec("count()", None, DriverAgg::Count),
        spec("sum(units)", Some(2), DriverAgg::Sum),
        spec("avg(price)", Some(3), DriverAgg::Mean),
    ];
    assert_eq!(
        measured_columns(&specs),
        vec![(2, DriverAgg::Sum), (3, DriverAgg::Mean)]
    );
    assert_eq!(measured_name(DriverAgg::Mean, "price"), "avg(price)");
    assert_eq!(measured_name(DriverAgg::Sum, "units"), "sum(units)");
    assert_eq!(decomposition_mode(2, 20, true), "regression");
    assert_eq!(decomposition_mode(2, 19, true), "heuristic");
    assert_eq!(decomposition_mode(0, 40, true), "heuristic");
    assert_eq!(decomposition_mode(2, 40, false), "heuristic");
}

#[test]
fn investigate_residual_model_uses_heuristic_mode_without_numeric_drivers() {
    let headers = names(&["date", "region", "channel", "revenue_usd"]);
    let specs = vec![DriverSpec {
        label: text("count_distinct(channel)"),
        col_idx: headers.iter().position(|h| h == "channel"),
        agg: DriverAgg::CountDistinct,
    }];
    let columns = measured_columns(&specs);
    assert!(columns.is_empty());
    assert!(!can_fit(columns.len(), 10_000));
    assert_eq!(decomposition_mode(columns.len(), 10_000, false), "heuristic");
    assert_eq!(decomposition_mode(columns.len(), 10_000, true), "heuristic");
}

#[test]
fn residual_summary_is_suppressed_for_clean_demo() {
    assert!(residual_is_small(num(0.1), num(5_970.47)));
    assert!(!residual_is_small(num(1.5), num(77_765.73)));
}

#[test]
fn residuals_give_signals() {
    assert!(residual_is_small(num(0.4), num(-9_999.0)));
    assert!(!residual_is_small(num(0.5), num(0.0)));
    assert!(!residual_is_small(num(0.0), num(10_000.0)));
    assert!(looks_for_signals("region", 2, &vec![0, 1]));
    assert!(!looks_for_signals("region", 1, &vec![0, 1]));
    assert!(!looks_for_signals("Created_Date", 2, &vec![]));
    let up = numeric_signal("units", 20, num(0.3), "+0.30").expect("a signal");
    assert_eq!(up.detail, "higher values correlate with residual (corr=+0.30)");
    let down = numeric_signal("units", 20, num(-0.8), "-0.80").expect("a signal");
    assert_eq!(down.detail, "lower values correlate with residual (corr=-0.80)");
    assert!(numeric_signal("units", 19, num(0.3), "+0.30").is_none());
    assert!(numeric_signal("units", 20, num(0.29), "+0.29").is_none());
    assert!(numeric_signal("units", 20, num(f64::NAN), "NaN").is_none());
    let value = |value: &str, mean: f64, count: usize| ValueResidual {
        value: text(value),
        mean: num(mean),
        count,
        score: num(mean.abs() * (count as f64).sqrt()),
        mean_text: format!("{mean:+.2}"),
    };
    let found = categorical_signal(
        "region",
        &vec![
            value("West", 5_000.0, 2),
            value("East", -2_000.0, 4),
            value("North", 1_500.0, 4),
        ],
    )
    .expect("a signal");
    assert_eq!(found.name, "region = East");
    assert_eq!(found.detail, "mean residual -2000.00 (4 rows)");
    assert!(categorical_signal("region", &vec![value("West", 999.0, 9)]).is_none());
    let signal = |name: &str, score: f64| ResidualSignal {
        name: text(name),
        signal_type: text("numeric"),
        score: num(score),
        detail: text("d"),
    };
    let ranked: Vec<String> =
        rank_signals(vec![signal("b", 1.0), signal("a", 1.0), signal("c", 2.0)], 2)
            .into_iter()
            .map(|s| s.name)
            .collect();
    assert_eq!(ranked, names(&["c", "a"]));
    assert_eq!(pretty_signal_name("region=West"), "region = West");
    assert_eq!(pretty_signal_name("region = We=st"), "region = We=st");
    assert_eq!(pretty_signal_name("units"), "units");
}

#[test]
fn a_decomposition_is_written_out() {
    let side = |name: &str| DriverLine {
        name: text(name),
        base: text("1.0000"),
        new: text("2.0000"),
        contribution: text("+5.0"),
    };
    let page = render_analyze_drivers_markdown(&DriversBrief {
        input: text("a.csv"),
        input_new: Some(text("b.csv")),
        metric: text("revenue"),
        total_change: text("+12.0"),
        window: text("base=a.csv new=b.csv"),
        expression: text("revenue = units * price"),
        fit_error: text("1.25"),
        fit_rows: 40,
        left: side("units"),
        right: side("price"),
        explained_change: text("+10.0"),
        explained_share: text("83"),
        residual_change: text("+2.0"),
        residual_amount: text("+20.00"),
        signals: vec![ResidualSignal {
            name: text("region=West"),
            signal_type: text("categorical"),
            score: num(1.0),
            detail: text("mean residual +2,000.00 (4 rows)"),
        }],
        md_path: text("out.md"),
        json_path: text("out.json"),
    });
    let expected = "# Driver Decomposition

- Input: a.csv
- Input new: b.csv
## revenue change: +12.0%

Window: `base=a.csv new=b.csv`

## Inferred identity

- `revenue = units * price`
- fit MAPE: 1.25% across 40 rows

## Driver contributions

| Driver | Base | New | Contribution % |
|---|---:|---:|---:|
| units | 1.0000 | 2.0000 | +5.0% |
| price | 1.0000 | 2.0000 | +5.0% |

## Closure check

- explained: +10.0% (83%)
- residual: +2.0% (+20.00).

## Residual segments

- region = West: mean residual +2,000.00 (4 rows)

## Artifacts written

- out.md
- out.json
";
    assert_eq!(page, expected);
}

#[test]
fn a_driver_investigation_is_written_out() {
    let day = |month: u32, day: u32| Date {
        year: 2026,
        month,
        day,
    };
    let page = render_investigate_markdown(&InvestigateBrief {
        input: text("a.csv"),
        metric: text("revenue"),
        change: text("-3.50"),
        windows: WindowSet {
            time_grain: None,
            period: None,
            current_start: day(2, 1),
            current_end: day(2, 28),
            previous_start: day(1, 1),
            previous_end: day(1, 31),
        },
        mode: text("heuristic"),
        drivers: vec![ContributionLine {
            name: text("sum(units)"),
            percent: text("-3.00"),
            delta: text("-7.0000"),
        }],
        explained: text("-3.00"),
        explained_share: text("86"),
        residual_change: text("+0.00"),
        residual_amount: text("+0.00"),
        signals: vec![],
    });
    let expected = "# Investigate Report

- Input: a.csv
## revenue change: -3.50%

Window: `2026-02-01..2026-02-28 vs 2026-01-01..2026-01-31`

Decomposition mode: `heuristic`

## Driver contributions

| Driver | Contribution % | Delta |
|---|---:|---:|
| sum(units) | -3.00% | -7.0000 |

## Closure check

- explained: -3.00% (86%)
- residual: +0.00% (+0.00).
";
    assert_eq!(page, expected);
}

#[test]
fn columns_are_profiled_and_suggested() {
    let headers = names(&["region", "revenue", "order_id", "order_date"]);
    let rows: Vec<Vec<String>> = (0..40)
        .map(|i| {
            vec![
                text(if i % 2 == 0 { "West" } else { "East" }),
                format!("{}", 100 + i),
                format!("A-{i}"),
                format!("2026-01-{:02}", i % 28 + 1),
            ]
        })
        .collect();
    let picked: Vec<usize> = (0..40).collect();
    let columns: Vec<SuggestColumn> = headers
        .iter()
        .enumerate()
        .map(|(i, h)| profile_column(h, &rows, &picked, i).expect("a profile"))
        .collect();
    let roles: Vec<&str> = columns.iter().map(|c| c.role.label()).collect();
    assert_eq!(roles[0], "dimension");
    assert_eq!(roles[1], "metric");
    assert_ne!(roles[2], "dimension");
    assert_eq!(roles[3], "date");
    assert_eq!(
        columns[0].top_values,
        vec![(text("East"), 20), (text("West"), 20)]
    );
    assert_eq!(suggest_groups(&columns, 3), names(&["region"]));
    assert_eq!(suggest_metrics(&columns, 3), names(&["revenue"]));
    assert_eq!(suggest_date_column(&columns), Some(text("order_date")));
    let texts: Vec<ColumnTexts> = columns
        .iter()
        .map(|_| ColumnTexts {
            fill: text("100.0"),
            numeric: text("0.00"),
            dates: text("0.00"),
        })
        .collect();
    assert_eq!(
        collect_warnings(&columns, &texts, 1, 1),
        names(&["Identifier-like column 'order_id' was excluded from suggestions."])
    );
    assert_eq!(
        collect_warnings(&vec![], &vec![], 0, 0),
        names(&[
            "No strong dimension columns detected. Pass --group-by manually.",
            "No strong metric columns detected. Pass --metrics manually.",
        ])
    );
    let report = AnalyzeSuggestReport {
        input: text("orders.csv"),
        sampled_rows: 40,
        sample_mode: SampleMode::Head,
        sample_seed: 42,
        profile_name: text("suggested"),
        suggested_group_by: names(&["region"]),
        suggested_metrics: vec![],
        suggested_rank_by: None,
        suggested_date_column: Some(text("order_date")),
        warnings: names(&["take care"]),
        columns: columns.into_iter().take(1).collect(),
    };
    let one: Vec<ColumnTexts> = texts.into_iter().take(1).collect();
    let page = suggest_report_markdown(&report, "p.toml", &one);
    let expected = "# Analyze Suggest Report

- Input: orders.csv
- Sampled rows: 40
- Sample mode: head (seed=42)
- Suggested profile name: `suggested`
- Suggested profile path: p.toml

## Suggested Columns

- group_by: region
- metrics: (none)
- rank_by: (none)
- date_column: order_date

## Warnings

- take care

## Column Profile

| Column | Role | Fill % | Distinct | Numeric Ratio | Date Ratio | Top Values |
|---|---|---:|---:|---:|---:|---|
| region | dimension | 100.0% | 2 | 0.00 | 0.00 | East (20); West (20) |
";
    assert_eq!(page, expected);
}

#[test]
fn a_table_is_profiled_on_a_sample() {
    let headers = names(&["region", "revenue"]);
    let rows: Vec<Vec<String>> = (0..40)
        .map(|i| vec![text(if i % 2 == 0 { "West" } else { "East" }), format!("{}", 100 + i)])
        .collect();
    let profile = |headers: &Vec<String>, rows: &Vec<Vec<String>>, size: usize| {
        profile_table(headers, rows, SampleMode::Head, size, 42).expect("an answer")
    };
    assert_eq!(
        profile(&vec![], &rows, 10).err(),
        Some(text("input CSV has no columns"))
    );
    assert_eq!(
        profile(&headers, &vec![], 10).err(),
        Some(text("input CSV has no rows"))
    );
    assert_eq!(
        profile(&headers, &rows, 0).err(),
        Some(text("input CSV has no rows"))
    );
    let (columns, sampled) = profile(&headers, &rows, 20).expect("columns");
    assert_eq!((columns.len(), sampled), (2, 20));
    assert_eq!(columns[1].counts.filled, 20);
    let request = SuggestRequest {
        input: text("orders.csv"),
        sample_mode: SampleMode::Head,
        sample_seed: 42,
        profile_name: text("suggested"),
        auto_group_k: 2,
        max_metrics: 2,
    };
    let texts: Vec<ColumnTexts> = columns
        .iter()
        .map(|_| ColumnTexts {
            fill: text("100.0"),
            numeric: text("0.00"),
            dates: text("0.00"),
        })
        .collect();
    let report = suggest_analysis(&request, columns, &texts, sampled);
    assert_eq!(report.suggested_group_by, names(&["region"]));
    assert_eq!(report.suggested_metrics, names(&["revenue"]));
    assert_eq!(report.suggested_rank_by, Some(text("revenue")));
    assert_eq!(report.suggested_date_column, None);
    assert_eq!(report.sampled_rows, 20);
    assert!(report.warnings.is_empty());
}
