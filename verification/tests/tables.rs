//! Tables: dates, groups, roles of columns, plans, segments and alerts.

use std::collections::HashMap;

use factorlens::aggregates::{find_middle, sort_values, Middle};
use factorlens::alerts::{eval_alert_rule, parse_alert_rule, AlertOp};
use factorlens::args::{PeriodPreset, SampleMode, TimeGrain};
use factorlens::dates::{derive_period_windows, write_date, Date};
use factorlens::decomposition::find_window_rows;
use factorlens::dimensions::{infer_csv_investigation_dimensions, MetricShares};
use factorlens::frames::{check_frames, check_query_windows, check_same_headers, split_rows};
use factorlens::groups::{is_blank_group_key, normalize_group_value, tokenize_words};
use factorlens::num::Num;
use factorlens::numeric::numeric_cell;
use factorlens::periods::{can_parse_date, parse_date_like, WindowSet};
use factorlens::plan::{check_analysis, plan_analysis, AnalysisRequest};
use factorlens::segments::{gather, group_rows};
use factorlens::suggest::{infer_column_role, sample_rows, ColumnCounts};
use factorlens::table::{
    auto_detect_date_column, auto_detect_groups, matches_where_filters, parse_where_filters,
};

fn text(s: &str) -> String {
    s.to_string()
}

fn names(xs: &[&str]) -> Vec<String> {
    xs.iter().map(|x| text(x)).collect()
}

fn num(x: f64) -> Num {
    Num { bits: x.to_bits() }
}

fn day(year: i32, month: u32, day: u32) -> Date {
    Date { year, month, day }
}

fn table(source: &str) -> (Vec<String>, Vec<Vec<String>>) {
    let mut lines = source.lines();
    let headers = names(&lines.next().unwrap().split(',').collect::<Vec<_>>());
    let rows = lines
        .map(|l| names(&l.split(',').collect::<Vec<_>>()))
        .collect();
    (headers, rows)
}

#[test]
fn parse_date_like_supports_postgres_timestamptz_variants() {
    let expected = day(2026, 3, 12);
    assert_eq!(parse_date_like("2026-03-12 14:23:55+00"), Some(expected));
    assert_eq!(
        parse_date_like("2026-03-12 14:23:55.123456+00"),
        Some(expected)
    );
    assert_eq!(parse_date_like("2026-03-12 14:23:55+0000"), Some(expected));
}

#[test]
fn cells_that_are_no_dates_are_passed_over() {
    assert_eq!(parse_date_like("2026-02-30"), None);
    assert_eq!(parse_date_like("tomorrow"), None);
    assert_eq!(parse_date_like("2026-03-12"), Some(day(2026, 3, 12)));
    assert_eq!(
        parse_date_like("2026-03-12T23:59:59Z"),
        Some(day(2026, 3, 12))
    );
    assert!(can_parse_date("2026-03-12"));
    assert!(can_parse_date("123456789\u{e9}"));
    assert!(!can_parse_date("1234-67-9\u{e9}"));
}

/// The dimensions that two tables offer, with the shares of the metric worked
/// out in floating point.
fn infer(
    base: &(Vec<String>, Vec<Vec<String>>),
    new: &(Vec<String>, Vec<Vec<String>>),
    metric: &str,
) -> Result<Vec<String>, String> {
    let at = |headers: &[String], name: &str| headers.iter().position(|h| h == name);
    let shares: Vec<MetricShares> = base
        .0
        .iter()
        .map(|name| {
            let mut sums: HashMap<String, f64> = HashMap::new();
            for (headers, rows) in [base, new] {
                let (c, m) = (at(headers, name).unwrap(), at(headers, metric).unwrap());
                for row in rows {
                    if !row[c].trim().is_empty() {
                        *sums.entry(text(row[c].trim())).or_insert(0.0) +=
                            row[m].trim().parse::<f64>().unwrap().abs();
                    }
                }
            }
            let mut parts: Vec<f64> = sums.values().copied().collect();
            parts.sort_by(|a, b| b.partial_cmp(a).unwrap());
            let total: f64 = parts.iter().sum();
            MetricShares {
                top1: num(parts[0] / total),
                top5: num(parts.iter().take(5).sum::<f64>() / total),
            }
        })
        .collect();
    infer_csv_investigation_dimensions(
        &base.0,
        &base.1,
        &new.0,
        &new.1,
        &Some(text(metric)),
        &shares,
    )
    .expect("dates that can be told")
}

#[test]
fn infer_csv_dimensions_excludes_identifier_columns() {
    let t = table(
        "region,group_id,revenue_usd\n\
         North,G-1,100\n\
         North,G-2,200\n\
         West,G-3,300\n\
         East,G-4,400\n\
         Other,G-5,500",
    );
    let inferred = infer(&t, &t, "revenue_usd").expect("infer dimensions");
    assert!(
        inferred.iter().any(|d| d == "region"),
        "expected region to be inferred"
    );
    assert!(
        !inferred.iter().any(|d| d == "group_id"),
        "identifier columns should be excluded from inferred dimensions"
    );
    assert_eq!(inferred, names(&["region"]));
}

#[test]
fn infer_csv_dimensions_keeps_concentrated_high_cardinality_text_columns() {
    let headers = names(&["organization_name", "region", "revenue_usd"]);
    let base = (0..100usize)
        .map(|i| {
            let (org, revenue) = if i < 40 {
                (text("MajorOrg"), text("1000"))
            } else {
                (format!("Org_{}", i), text("10"))
            };
            vec![org, text("US"), revenue]
        })
        .collect::<Vec<_>>();
    let new = (0..100usize)
        .map(|i| {
            let (org, revenue) = if i < 45 {
                (text("MajorOrg"), text("1200"))
            } else {
                (format!("Org_{}", i + 100), text("12"))
            };
            vec![org, text("US"), revenue]
        })
        .collect::<Vec<_>>();
    let inferred =
        infer(&(headers.clone(), base), &(headers, new), "revenue_usd").expect("infer dimensions");
    assert!(
        inferred.iter().any(|d| d == "organization_name"),
        "expected concentrated high-cardinality dimension to be kept"
    );
}

#[test]
fn infer_csv_dimensions_skips_diffuse_high_cardinality_text_columns() {
    let headers = names(&["organization_name", "region", "revenue_usd"]);
    let rows = |offset: usize| {
        (0..120usize)
            .map(|i| vec![format!("Org_{}", i + offset), text("US"), text("100")])
            .collect::<Vec<_>>()
    };
    let inferred = infer(
        &(headers.clone(), rows(0)),
        &(headers, rows(200)),
        "revenue_usd",
    )
    .expect("infer dimensions");
    assert!(
        !inferred.iter().any(|d| d == "organization_name"),
        "expected diffuse high-cardinality dimension to be skipped"
    );
}

#[test]
fn infer_column_role_excludes_identifier_like_dimension_candidates() {
    let role = infer_column_role(
        "group_id",
        ColumnCounts {
            sampled: 100,
            filled: 95,
            numeric: 5,
            dates: 0,
            distinct: 35,
        },
    );
    assert_ne!(
        role.label(),
        "dimension",
        "identifier-like columns should not be inferred as dimensions"
    );
}

#[test]
fn auto_detect_groups_excludes_identifier_columns() {
    let (headers, rows) = table(
        "region,group_id,category\n\
         North,G-1,A\n\
         North,G-2,A\n\
         West,G-3,B\n\
         West,G-4,B\n\
         East,G-5,C",
    );
    let groups = auto_detect_groups(&headers, &rows, 3);
    assert!(groups.iter().any(|g| g == "region") || groups.iter().any(|g| g == "category"));
    assert!(
        !groups.iter().any(|g| g == "group_id"),
        "identifier columns should be excluded from auto group suggestions"
    );
}

#[test]
fn derived_windows_touch_and_do_not_overlap() {
    let (current, previous) =
        derive_period_windows(day(2026, 3, 12), TimeGrain::Month, PeriodPreset::Last);
    assert_eq!(current, (day(2026, 2, 1), day(2026, 2, 28)));
    assert_eq!(previous, (day(2026, 1, 1), day(2026, 1, 31)));
    let (week, before) =
        derive_period_windows(day(2026, 3, 12), TimeGrain::Week, PeriodPreset::Current);
    assert_eq!(week, (day(2026, 3, 9), day(2026, 3, 15)));
    assert_eq!(before, (day(2026, 3, 2), day(2026, 3, 8)));
    assert_eq!(write_date(day(2026, 3, 9)), "2026-03-09");
    assert_eq!(write_date(day(-1, 3, 9)), "-0001-03-09");
}

#[test]
fn rows_of_both_windows_belong_to_the_previous_one() {
    let w = WindowSet {
        time_grain: None,
        period: None,
        current_start: day(2026, 2, 1),
        current_end: day(2026, 2, 28),
        previous_start: day(2026, 1, 15),
        previous_end: day(2026, 2, 3),
    };
    let rows: Vec<Vec<String>> = ["2026-02-02", "2026-02-10", "x", "2026-01-20", "2025-01-01"]
        .iter()
        .map(|d| vec![text(d)])
        .collect();
    let found = find_window_rows(&rows, 0, w).unwrap();
    let (base, new) = split_rows(&found);
    assert_eq!(base, vec![0, 3]);
    assert_eq!(new, vec![1]);
    assert_eq!(check_query_windows(2, 1), Ok(()));
    assert_eq!(
        check_query_windows(2, 0),
        Err(text(
            "period windows contain no comparable rows from postgres query (previous=2, current=0)"
        ))
    );
    assert_eq!(
        check_frames(0, 1),
        Err(text("analyze-drivers needs non-empty base and new frames"))
    );
    assert_eq!(
        check_same_headers(&names(&["a"]), &names(&["b"])),
        Err(text("input and input-new must have identical headers"))
    );
}

fn request() -> AnalysisRequest {
    AnalysisRequest {
        group_by: names(&["region"]),
        auto_group_k: 3,
        metrics: names(&["revenue"]),
        count_only: false,
        rank_by: None,
        where_clauses: vec![],
        date_column: None,
    }
}

#[test]
fn rows_are_gathered_by_their_groups() {
    let (headers, rows) = table(
        "region,channel,revenue\n\
         West,Direct,10\n\
         East,Direct,20\n\
         West,Market,30\n\
         ,Market,40",
    );
    let plan = plan_analysis(&headers, &rows, &request()).expect("plan");
    assert_eq!(plan.groups, names(&["region"]));
    let grouping = group_rows(&plan, &rows, false, false);
    let keys: Vec<&str> = grouping.segments.iter().map(|s| s.key.as_str()).collect();
    assert_eq!(keys, vec!["(blank)", "East", "West"]);
    assert_eq!(grouping.segments[2].rows, vec![0, 2]);
    assert!(is_blank_group_key("(blank) | (blank)"));
    assert!(!is_blank_group_key("(blank) | West"));
    let without = group_rows(&plan, &rows, false, true);
    assert_eq!(without.segments.len(), 2);
}

#[test]
fn unknown_columns_are_refused() {
    let (headers, rows) = table("region,revenue\nWest,1");
    let mut req = request();
    req.group_by = names(&["nowhere"]);
    let err = plan_analysis(&headers, &rows, &req).err().unwrap();
    assert!(err.contains("nowhere"), "{}", err);
    let bad_rule = check_analysis(&headers, &rows, &request(), &names(&["speed > 3"]));
    assert!(bad_rule.err().unwrap().contains("speed"));
    assert!(check_analysis(&headers, &rows, &request(), &names(&["records > 3"])).is_ok());
}

#[test]
fn filters_keep_the_rows_that_match() {
    let (headers, rows) = table("region,revenue\nWest,1\nEast,2");
    let filters = parse_where_filters(&names(&["region=West"]), &headers).expect("filters");
    assert!(matches_where_filters(&rows[0], &filters));
    assert!(!matches_where_filters(&rows[1], &filters));
    assert!(parse_where_filters(&names(&["region"]), &headers).is_err());
}

#[test]
fn date_columns_are_found() {
    let (headers, rows) = table("id,event_time\n1,2026-01-02\n2,2026-01-03");
    assert_eq!(
        auto_detect_date_column(&headers, &rows),
        Some(Some(text("event_time")))
    );
}

#[test]
fn equal_keys_make_one_segment() {
    let segments = gather(&names(&["b", "a", "b"]));
    assert_eq!(segments.len(), 2);
    assert_eq!(segments[0].key, "a");
    assert_eq!(segments[1].rows, vec![0, 2]);
}

#[test]
fn group_values_are_reduced_to_words() {
    assert_eq!(normalize_group_value("  Caf\u{c9} -- No. 7! "), "caf\u{e9} no 7");
    assert_eq!(
        tokenize_words("The data of 2024 in Z\u{dc}RICH will grow"),
        names(&["z\u{fc}rich", "grow"])
    );
}

#[test]
fn normalized_values_stay_as_they_are() {
    for raw in ["", " -- ", "A - B", "x!y", "\u{3000}\u{c9}t\u{e9}\t\t(7) ", "No.  7 &  8"] {
        let once = normalize_group_value(raw);
        assert_eq!(normalize_group_value(&once), once);
        assert_eq!(once.trim(), once);
        assert!(!once.contains("  "));
    }
    assert_eq!(normalize_group_value("A - B"), "a b");
    assert_eq!(normalize_group_value(" -- "), "");
    assert_eq!(normalize_group_value("x!y"), "xy");
}

#[test]
fn numbers_are_told_from_other_texts() {
    for (cell, is_number) in [
        ("1", true),
        ("-1.5e3", true),
        ("1,234.5", true),
        ("$1", true),
        ("12%", false),
        ("abc", false),
        ("", false),
        ("1.2.3", false),
    ] {
        assert_eq!(numeric_cell(cell), is_number, "{}", cell);
    }
}

#[test]
fn samples_hold_rows_of_the_table() {
    assert_eq!(sample_rows(5, SampleMode::Head, 3, 42), vec![0, 1, 2]);
    let picked = sample_rows(100, SampleMode::Random, 10, 42);
    assert_eq!(picked.len(), 10);
    assert!(picked.iter().all(|i| *i < 100));
    assert_eq!(picked, sample_rows(100, SampleMode::Random, 10, 42));
}

#[test]
fn alert_rules_are_read_and_judged() {
    let rule = parse_alert_rule(" top5_share >= 40 ").expect("rule");
    assert_eq!(rule.metric, "top5_share");
    assert_eq!(rule.op, AlertOp::AtLeast);
    assert_eq!(rule.threshold, "40");
    let judge = |op: AlertOp, a: f64, t: f64| eval_alert_rule(op, num(a), num(t), num((a - t).abs()));
    assert!(judge(AlertOp::AtLeast, 40.0, 40.0));
    assert!(!judge(AlertOp::Above, 40.0, 40.0));
    assert!(judge(AlertOp::Below, 39.0, 40.0));
    assert!(judge(AlertOp::AtMost, 40.0, 40.0));
    assert!(judge(AlertOp::Equals, 40.0, 40.0));
    assert!(!judge(AlertOp::Differs, 40.0, 40.0));
    assert_eq!(parse_alert_rule(" ").err(), Some(text("empty --alert-rule")));
    assert!(parse_alert_rule(">= 3").err().unwrap().contains("missing metric"));
    assert!(parse_alert_rule("records >= x").is_err());
    assert!(parse_alert_rule("records").is_err());
}

#[test]
fn the_middle_of_values_is_found_in_order() {
    let values: Vec<Num> = [3.0, -1.0, 2.0].iter().map(|x| num(*x)).collect();
    assert_eq!(find_middle(&values), Middle::One(num(2.0)));
    let even: Vec<Num> = [3.0, -1.0, 2.0, 10.0].iter().map(|x| num(*x)).collect();
    assert_eq!(find_middle(&even), Middle::Two(num(2.0), num(3.0)));
    assert_eq!(find_middle(&vec![]), Middle::Empty);
    let sorted: Vec<f64> = sort_values(&even)
        .iter()
        .map(|n| f64::from_bits(n.bits))
        .collect();
    assert_eq!(sorted, vec![-1.0, 2.0, 3.0, 10.0]);
}
