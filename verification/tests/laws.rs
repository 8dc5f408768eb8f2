//! What holds of whole groups of calls, on small examples.

use factorlens::answers::{sanitize_explain_analyze_answer, sanitize_llm_summary};
use factorlens::args::{
    investigation_mode_label, mode_from_arg, parse_backend_arg_from_str, parse_mode_arg_from_str,
    planner_backend_label, AggKind, AnalyzeArgs, BackendArg, InvestigationModeArg, OutputFormat,
    PostgresSslMode,
};
use factorlens::dates::Date;
use factorlens::factors::{factor_index, normalize_factor_name};
use factorlens::json::extract_json_object_from;
use factorlens::market::{auto_factor_count, drop_weekends, PricePoint};
use factorlens::num::Num;
use factorlens::plan::{plan_analysis, AnalysisRequest};
use factorlens::segments::{rank_segments, Ranked};
use factorlens::sources::apply_analyze_profile;
use factorlens::table::{matches_where_filters, parse_where_filters};

fn text(s: &str) -> String {
    s.to_string()
}

fn names(xs: &[&str]) -> Vec<String> {
    xs.iter().map(|x| text(x)).collect()
}

fn options() -> AnalyzeArgs {
    AnalyzeArgs {
        input: Some(text("orders.csv")),
        postgres_url: None,
        postgres_ssl_mode: PostgresSslMode::Prefer,
        postgres_ca_file: None,
        query: None,
        query_file: None,
        profile: None,
        profile_config: None,
        group_by: Vec::new(),
        auto_group_k: 0,
        metrics: Vec::new(),
        count_only: false,
        agg: AggKind::Sum,
        percentiles: Vec::new(),
        normalize_text_groups: false,
        word_freq: false,
        date_column: None,
        time_grain: None,
        period: None,
        anchor_date: None,
        current_start: None,
        current_end: None,
        previous_start: None,
        previous_end: None,
        where_clauses: Vec::new(),
        exclude_blank_groups: false,
        rank_by: None,
        top: 20,
        top_insights: 5,
        opportunity_min_records: 1,
        min_records: 1,
        alert_top5_share: None,
        alert_blank_share: None,
        alert_rule: Vec::new(),
        output_format: OutputFormat::Md,
        out: None,
    }
}

#[test]
fn the_three_ways_to_name_a_factor_agree() {
    for i in [0usize, 1, 7, 12] {
        let column = format!("factor_{i}_contrib");
        assert_eq!(normalize_factor_name(&format!("{i}")), column);
        assert_eq!(normalize_factor_name(&format!("factor_{i}")), column);
        assert_eq!(normalize_factor_name(&column), column);
        assert_eq!(factor_index(&format!("factor_{i}")), Some(i));
        assert_eq!(factor_index(&column), Some(i));
    }
}

#[test]
fn small_segments_are_not_ranked() {
    let item = |segment: usize, count: u64, value: f64| Ranked {
        segment,
        count,
        value: Num {
            bits: value.to_bits(),
        },
    };
    let items = vec![item(0, 3, 9.0), item(1, 40, 1.0), item(2, 12, 5.0)];
    let places = |by_value: bool| -> Vec<usize> {
        rank_segments(&items, 10, by_value)
            .iter()
            .map(|r| r.segment)
            .collect()
    };
    assert_eq!(places(false), vec![1, 2]);
    assert_eq!(places(true), vec![2, 1]);
}

#[test]
fn built_in_profiles_keep_the_columns_that_were_asked_for() {
    let mut args = options();
    args.profile = Some(text("Exec"));
    args.group_by = names(&["severity"]);
    args.metrics = names(&["events"]);
    args.where_clauses = names(&["region=emea"]);
    args.rank_by = Some(text("events"));
    let after = apply_analyze_profile(args.clone(), None).unwrap();
    assert_eq!(after.group_by, args.group_by);
    assert_eq!(after.metrics, args.metrics);
    assert_eq!(after.where_clauses, args.where_clauses);
    assert_eq!(after.rank_by, args.rank_by);
    assert_eq!(after.min_records, 20);
    args.profile = Some(text("no such profile"));
    assert!(apply_analyze_profile(args, None).is_err());
}

#[test]
fn counting_looks_at_no_metrics() {
    let headers = names(&["region", "amount"]);
    let sample = vec![names(&["emea", "3"]), names(&["apac", "4"])];
    let request = AnalysisRequest {
        group_by: names(&["region"]),
        auto_group_k: 0,
        metrics: Vec::new(),
        count_only: true,
        rank_by: None,
        where_clauses: Vec::new(),
        date_column: None,
    };
    let plan = plan_analysis(&headers, &sample, &request).unwrap();
    assert!(plan.metrics.is_empty());
    assert_eq!(plan.rank_metric, None);
}

#[test]
fn rows_pass_all_filters_or_none() {
    let headers = names(&["region", "tier"]);
    let both = parse_where_filters(&names(&["region=emea", "tier=gold"]), &headers).unwrap();
    let first = parse_where_filters(&names(&["region=emea"]), &headers).unwrap();
    let second = parse_where_filters(&names(&["tier=gold"]), &headers).unwrap();
    for row in [["emea", "gold"], ["emea", "iron"], ["apac", "gold"]] {
        let row = names(&row);
        assert_eq!(
            matches_where_filters(&row, &both),
            matches_where_filters(&row, &first) && matches_where_filters(&row, &second)
        );
    }
    assert!(matches_where_filters(&names(&["emea", "gold"]), &both));
    assert!(!matches_where_filters(&names(&["emea", "iron"]), &both));
}

#[test]
fn modes_and_backends_are_read_by_their_names() {
    for mode in [
        InvestigationModeArg::ChangeDrivers,
        InvestigationModeArg::ConcentrationDrivers,
        InvestigationModeArg::CompareSnapshots,
        InvestigationModeArg::RecommendNext,
    ] {
        let name = investigation_mode_label(mode_from_arg(mode));
        assert_eq!(parse_mode_arg_from_str(name).unwrap(), mode);
    }
    for backend in [BackendArg::Local, BackendArg::Bedrock] {
        let name = planner_backend_label(backend);
        assert_eq!(parse_backend_arg_from_str(name).unwrap(), backend);
    }
}

#[test]
fn answers_are_short_and_say_a_thing_once() {
    let raw = "- Revenue fell in emea by 12.\n- revenue fell in EMEA by 12.\n- Apac grew by 3 over the period.\n- Latam stayed level at 40 in both.\n- North lost 5 of its accounts.\n- South gained 9 more accounts here.";
    let answer = sanitize_explain_analyze_answer(raw, 3);
    let lines: Vec<&str> = answer.lines().collect();
    assert!(lines.len() <= 3);
    assert!(!answer.contains("revenue fell in EMEA by 12"));
    let summary = sanitize_llm_summary(raw, "why did revenue fall?");
    assert!(summary.lines().count() <= 4);
}

#[test]
fn weekends_are_left_out_and_nothing_else() {
    let price = |day: u32| PricePoint {
        date: Date {
            year: 2026,
            month: 2,
            day,
        },
        ticker: text("AAA"),
        close: Num {
            bits: 10.0f64.to_bits(),
        },
    };
    // 2026-02-06 is a Friday.
    let prices = vec![price(6), price(7), price(8), price(9)];
    let days: Vec<u32> = drop_weekends(&prices).iter().map(|p| p.date.day).collect();
    assert_eq!(days, vec![6, 9]);
    assert_eq!(auto_factor_count(2), 1);
    assert_eq!(auto_factor_count(5), 4);
    assert_eq!(auto_factor_count(40), 10);
}

#[test]
fn objects_end_at_their_own_brace() {
    let raw = r#"say {"a": {"b": "}"}} and {"c"#;
    assert_eq!(
        extract_json_object_from(raw, 4),
        Some(text(r#"{"a": {"b": "}"}}"#))
    );
    assert_eq!(extract_json_object_from(raw, 10), Some(text(r#"{"b": "}"}"#)));
    assert_eq!(extract_json_object_from(raw, 0), None);
    assert_eq!(extract_json_object_from(raw, 26), None);
}

#[test]
fn places_of_objects_are_counted_in_bytes() {
    let raw = "\u{e9}{}";
    assert_eq!(extract_json_object_from(raw, 2), Some(text("{}")));
    assert_eq!(extract_json_object_from(raw, 3), None);
    assert_eq!(extract_json_object_from(raw, 9), None);
    let raw = "\u{20ac} {\"a\": \"\u{e9}}\"} after";
    assert_eq!(
        extract_json_object_from(raw, 4),
        Some(text("{\"a\": \"\u{e9}}\"}"))
    );
}
