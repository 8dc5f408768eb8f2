//! What is asked for: periods, sources, columns, drivers and segments.

use factorlens::args::{
    parse_investigate_output_format_from_str, parse_period_preset_from_str,
    parse_planner_from_str, parse_postgres_ssl_mode_from_str, parse_time_grain_from_str, AggKind,
    AnalyzeArgs, AnalyzeDriversArgs, AutoDriversMode, BackendArg, DriverPreset, InvestigateArgs,
    InvestigateContribMode, InvestigateInputKind, InvestigateOutputFormat,
    InvestigateWorkflowArgs, InvestigationPlanner, OutputFormat, PeriodPreset, PostgresSslMode,
    TimeGrain,
};
use factorlens::artifacts::{
    artifact_has_metric, groups_to_map, infer_artifact_group_dimension, metric_for_tables,
    needs_inferred_dimensions, read_json_document, resolve_step_metric, step_analysis_options,
    validate_metric_in_artifact, value_by_key_case_insensitive, write_scope_clauses,
};
use factorlens::columns::{
    find_column, find_date_column, find_query_date_column, require_date_column,
};
use factorlens::dates::Date;
use factorlens::decomposition::{check_investigate_options, check_window_rows, WindowRow};
use factorlens::drivers::{
    auto_select_driver_specs, parse_investigate_driver, select_driver_specs_by_preset,
    settle_driver_specs, DriverAgg, DriverSpec,
};
use factorlens::frames::{
    check_columns, check_rows, files_summary, query_labels, require_identity, windows_summary,
};
use factorlens::groups::compose_group_key;
use factorlens::json::Json;
use factorlens::num::Num;
use factorlens::periods::{
    parse_period_cfg_from_driver_args, parse_period_cfg_from_investigate,
    parse_period_cfg_from_investigate_workflow, parse_period_compare_config, Side, WindowSet,
};
use factorlens::plan::{plan_analysis, AnalysisRequest};
use factorlens::planner::{
    default_planner_reason, infer_scope_from_last_step, is_repeated_path, ordered_scope_from_filters,
    resolve_dimension_name,
};
use factorlens::scope::{
    conflicting_scope_binding, investigation_scope_key, scope_starts_with, scope_value,
};
use factorlens::segments::{
    blank_records, collect_words, count_sides, count_words, date_rows, group_rows,
    largest_segment, rank_by_value_ascending, top_five_records, top_word_counts, Ranked, Segment,
};
use factorlens::sources::{
    analyze_input_source, copy_statement, investigate_input_source, InputSource, PairSource,
    QueryText,
};
use factorlens::subjects::{
    choose_drivers, find_investigated_rows, locate_investigation, match_driver_tables,
    split_driver_table, split_query_rows,
};
use factorlens::table::{auto_detect_numeric_metrics, looks_like_identifier_column};

fn text(s: &str) -> String {
    s.to_string()
}

fn names(xs: &[&str]) -> Vec<String> {
    xs.iter().map(|x| text(x)).collect()
}

fn pairs(xs: &[(&str, &str)]) -> Vec<(String, String)> {
    xs.iter().map(|(k, v)| (text(k), text(v))).collect()
}

fn num(x: f64) -> Num {
    Num { bits: x.to_bits() }
}

fn day(year: i32, month: u32, day: u32) -> Date {
    Date { year, month, day }
}

fn table_options() -> AnalyzeArgs {
    AnalyzeArgs {
        input: None,
        postgres_url: None,
        postgres_ssl_mode: PostgresSslMode::Prefer,
        postgres_ca_file: None,
        query: None,
        query_file: None,
        profile: None,
        profile_config: None,
        group_by: vec![],
        auto_group_k: 5,
        metrics: vec![],
        count_only: false,
        agg: AggKind::Sum,
        percentiles: vec![],
        normalize_text_groups: false,
        word_freq: false,
        date_column: None,
        time_grain: None,
        period: None,
        anchor_date: None,
        current_start: None,
        current_end: None,
        previous_start: None,
        previous_end: None,
        where_clauses: vec![],
        exclude_blank_groups: false,
        rank_by: None,
        top: 20,
        top_insights: 0,
        opportunity_min_records: 2,
        min_records: 1,
        alert_top5_share: None,
        alert_blank_share: None,
        alert_rule: vec![],
        output_format: OutputFormat::Both,
        out: None,
    }
}

fn driver_options() -> InvestigateArgs {
    InvestigateArgs {
        input: text("a.csv"),
        metric: text("revenue"),
        drivers: vec![],
        driver_include: vec![],
        driver_exclude: vec![],
        driver_preset: None,
        auto_drivers: AutoDriversMode::Deterministic,
        dedup_drivers: true,
        driver_contrib: InvestigateContribMode::Percent,
        top_drivers: 3,
        output_format: InvestigateOutputFormat::Both,
        out: None,
        max_id_drivers: 3,
        max_cat_drivers: 2,
        max_num_drivers: 2,
        date_column: None,
        time_grain: None,
        period: None,
        anchor_date: None,
        current_start: None,
        current_end: None,
        previous_start: None,
        previous_end: None,
    }
}

fn search_options() -> InvestigateWorkflowArgs {
    InvestigateWorkflowArgs {
        question: text("why"),
        mode: None,
        config: None,
        profile: None,
        profile_config: None,
        base: None,
        new: None,
        postgres_url: None,
        postgres_ssl_mode: PostgresSslMode::Prefer,
        postgres_ca_file: None,
        query: None,
        query_file: None,
        metric: None,
        date_column: None,
        time_grain: None,
        period: None,
        anchor_date: None,
        current_start: None,
        current_end: None,
        previous_start: None,
        previous_end: None,
        dimensions: vec![],
        drill_fields: vec![],
        max_depth: 2,
        max_branches: 3,
        min_contribution: num(5.0),
        min_delta_abs: num(0.0),
        min_score_improvement: num(0.0),
        min_slice_rows: 5,
        top_movers: 12,
        planner: InvestigationPlanner::Deterministic,
        planner_backend: BackendArg::Local,
        planner_model: None,
        verbose: false,
        trace: false,
        output_format: InvestigateOutputFormat::Both,
        out: None,
    }
}

fn two_factor_options() -> AnalyzeDriversArgs {
    AnalyzeDriversArgs {
        input: text("a.csv"),
        input_new: None,
        metric: text("revenue"),
        output_format: InvestigateOutputFormat::Both,
        out: None,
        date_column: Some(text("day")),
        time_grain: None,
        period: None,
        anchor_date: None,
        current_start: None,
        current_end: None,
        previous_start: Some(text("2026-01-01")),
        previous_end: None,
    }
}

#[test]
fn periods_are_compared_where_they_are_asked_for() {
    let now = day(2026, 3, 12);
    let read = |args: &AnalyzeArgs| parse_period_compare_config(args, now).expect("in the calendar");
    let mut args = table_options();
    assert!(read(&args).expect("no period").is_none());
    args.time_grain = Some(TimeGrain::Month);
    assert_eq!(
        read(&args).err(),
        Some(text("--date-column is required when using period comparison flags"))
    );
    args.date_column = Some(text("day"));
    let cfg = read(&args).expect("windows").expect("a comparison");
    assert_eq!(cfg.date_column, "day");
    assert_eq!(cfg.windows.current_start, day(2026, 3, 1));
    assert_eq!(cfg.windows.previous_end, day(2026, 2, 28));
    assert_eq!(cfg.windows.period, Some(PeriodPreset::Current));
    args.current_start = Some(text("2026-01-01"));
    assert!(read(&args).err().expect("refused").contains("not both"));
    args.time_grain = None;
    assert_eq!(
        read(&args).err(),
        Some(text("--current-end is required for period comparison"))
    );
    args.current_end = Some(text("2025-01-01"));
    args.previous_start = Some(text("2024-01-01"));
    args.previous_end = Some(text("nonsense"));
    assert_eq!(
        read(&args).err(),
        Some(text("invalid date 'nonsense'; expected YYYY-MM-DD"))
    );
    args.previous_end = Some(text("2024-02-01"));
    assert_eq!(
        read(&args).err(),
        Some(text("current period start must be <= end"))
    );
    args.current_end = Some(text("2026-01-31"));
    args.previous_end = Some(text("2023-02-01"));
    assert_eq!(
        read(&args).err(),
        Some(text("previous period start must be <= end"))
    );
    let mut bare = table_options();
    bare.date_column = Some(text("day"));
    assert_eq!(
        read(&bare).err(),
        Some(text("--time-grain is required when using derived period comparison"))
    );
}

#[test]
fn investigations_take_the_last_month_by_themselves() {
    let now = day(2026, 3, 12);
    let by_drivers = parse_period_cfg_from_investigate(&driver_options(), now)
        .expect("in the calendar")
        .expect("windows");
    assert_eq!(by_drivers.current_start, day(2026, 2, 1));
    assert_eq!(by_drivers.previous_start, day(2026, 1, 1));
    let mut search = search_options();
    search.anchor_date = Some(text("2025-12-31"));
    search.time_grain = Some(TimeGrain::Year);
    search.period = Some(PeriodPreset::Current);
    let by_search = parse_period_cfg_from_investigate_workflow(&search, now)
        .expect("in the calendar")
        .expect("windows");
    assert_eq!(by_search.current_end, day(2025, 12, 31));
    assert_eq!(by_search.previous_start, day(2024, 1, 1));
    let mut two = two_factor_options();
    assert_eq!(
        parse_period_cfg_from_driver_args(&two, now).expect("in the calendar").err(),
        Some(text("--current-start is required"))
    );
    two.previous_start = None;
    let found = parse_period_cfg_from_driver_args(&two, now)
        .expect("in the calendar")
        .expect("windows");
    assert_eq!(windows_summary(found), "2026-02-01..2026-02-28 vs 2026-01-01..2026-01-31");
    assert_eq!(
        query_labels("day", found),
        (
            text("postgres query (day) previous window 2026-01-01..2026-01-31"),
            text("postgres query (day) current window 2026-02-01..2026-02-28"),
        )
    );
    assert_eq!(files_summary("a", "b"), "base=a new=b");
}

#[test]
fn option_values_are_read_whatever_their_case() {
    assert_eq!(parse_planner_from_str(" LLM "), Ok(InvestigationPlanner::Llm));
    assert_eq!(
        parse_planner_from_str("x"),
        Err(text("invalid planner 'x'; expected deterministic or llm"))
    );
    assert_eq!(
        parse_investigate_output_format_from_str("MD"),
        Ok(InvestigateOutputFormat::Md)
    );
    assert_eq!(
        parse_investigate_output_format_from_str("pdf"),
        Err(text("invalid investigate output format 'pdf'; expected md, json, or both"))
    );
    assert_eq!(
        parse_postgres_ssl_mode_from_str("Require"),
        Ok(PostgresSslMode::Require)
    );
    assert_eq!(
        parse_postgres_ssl_mode_from_str("no"),
        Err(text("invalid postgres ssl mode 'no'; expected disable, prefer, or require"))
    );
    assert_eq!(parse_time_grain_from_str("week"), Ok(TimeGrain::Week));
    assert_eq!(
        parse_time_grain_from_str("hour"),
        Err(text("invalid time grain 'hour'; expected day, week, month, or year"))
    );
    assert_eq!(
        parse_period_preset_from_str("previous"),
        Ok(PeriodPreset::Previous)
    );
    assert_eq!(
        parse_period_preset_from_str("next"),
        Err(text("invalid period 'next'; expected current, previous, or last"))
    );
}

#[test]
fn a_table_has_one_source() {
    let mut args = table_options();
    let neither = "choose exactly one input source: --input <csv> OR --postgres-url + (--query | --query-file)";
    assert_eq!(analyze_input_source(&args, None).err(), Some(text(neither)));
    args.query = Some(text("select 1"));
    assert_eq!(
        analyze_input_source(&args, None).err(),
        Some(text("--query/--query-file require --postgres-url (or DATABASE_URL env var)"))
    );
    match analyze_input_source(&args, Some(text("db"))) {
        Ok(InputSource::Query {
            url,
            query: QueryText::Inline(q),
        }) => assert_eq!((url.as_str(), q.as_str()), ("db", "select 1")),
        other => panic!("{other:?}"),
    }
    args.query = None;
    assert_eq!(
        analyze_input_source(&args, Some(text("db"))).err(),
        Some(text("postgres analyze requires one of --query or --query-file"))
    );
    args.input = Some(text("a.csv"));
    assert!(matches!(
        analyze_input_source(&args, Some(text("db"))),
        Ok(InputSource::Table { .. })
    ));
    args.postgres_ssl_mode = PostgresSslMode::Require;
    assert_eq!(analyze_input_source(&args, None).err(), Some(text(neither)));
    assert_eq!(
        copy_statement("  select 1 "),
        "COPY (select 1) TO STDOUT WITH (FORMAT CSV, HEADER TRUE)"
    );
}

#[test]
fn an_investigation_has_two_files_or_a_query() {
    let mut args = search_options();
    let refused = |args: &InvestigateWorkflowArgs, url: Option<&str>| {
        investigate_input_source(args, url.map(text)).err()
    };
    assert_eq!(
        refused(&args, None),
        Some(text("missing input: provide --base/--new OR --postgres-url (or DATABASE_URL) + --query/--query-file"))
    );
    assert_eq!(
        refused(&args, Some("db")),
        Some(text("postgres investigate requires one of --query or --query-file"))
    );
    args.query = Some(text("q"));
    args.query_file = Some(text("q.sql"));
    assert_eq!(
        refused(&args, Some("db")),
        Some(text("use only one of --query or --query-file"))
    );
    args.query = None;
    match investigate_input_source(&args, Some(text("db"))) {
        Ok(PairSource::Query {
            url,
            query: QueryText::File(f),
        }) => assert_eq!((url.as_str(), f.as_str()), ("db", "q.sql")),
        other => panic!("{other:?}"),
    }
    args.base = Some(text("a"));
    assert_eq!(
        refused(&args, None),
        Some(text("choose one input mode: (--base and --new) OR (--postgres-url + --query/--query-file)"))
    );
    args.query_file = None;
    assert_eq!(
        refused(&args, None),
        Some(text("--new is required when using file input mode"))
    );
    args.new = Some(text("b"));
    assert!(matches!(
        investigate_input_source(&args, None),
        Ok(PairSource::Files { .. })
    ));
    args.base = None;
    assert_eq!(
        refused(&args, None),
        Some(text("--base is required when using file input mode"))
    );
}

#[test]
fn columns_are_found_by_name() {
    let headers = names(&["Region", "event_date", "amount"]);
    let rows: Vec<Vec<String>> = (1..=9)
        .map(|i| names(&["West", &format!("2026-01-0{i}"), "3"]))
        .collect();
    let c = find_column(&headers, " region ").expect("a column");
    assert_eq!((c.name.as_str(), c.idx), ("Region", 0));
    assert_eq!(
        find_column(&headers, "tier").err(),
        Some(text("group column 'tier' not found"))
    );
    let found = find_date_column(&headers, &rows, &None)
        .expect("an answer")
        .expect("a column");
    assert_eq!((found.name.as_str(), found.idx), ("event_date", 1));
    let bare = names(&["a", "b", "c"]);
    assert_eq!(
        find_date_column(&bare, &rows, &None).expect("an answer").err(),
        Some(text("date column is required for investigate mode; pass --date-column or provide a detectable date column"))
    );
    assert_eq!(
        find_query_date_column(&bare, &rows, &None).expect("an answer").err(),
        Some(text("failed to auto-detect date column from postgres query output; pass --date-column"))
    );
    let named = find_query_date_column(&bare, &rows, &Some(text("B")))
        .expect("an answer")
        .expect("a column");
    assert_eq!(named.idx, 1);
    assert_eq!(
        require_date_column(&headers, &None).err(),
        Some(text("--date-column is required when --input-new is not provided"))
    );
    assert_eq!(
        require_date_column(&headers, &Some(text("event_date")))
            .expect("a column")
            .idx,
        1
    );
    assert_eq!(
        require_identity(None, "revenue").err(),
        Some(text("no stable 2-term identity found for 'revenue'"))
    );
    assert_eq!(check_columns(0), Err(text("input CSV has no columns")));
    assert_eq!(check_rows(0), Err(text("input CSV has no rows")));
    assert_eq!(check_rows(1), Ok(()));
    assert!(looks_like_identifier_column("Customer_ID"));
    assert!(!looks_like_identifier_column("idea"));
    assert_eq!(
        auto_detect_numeric_metrics(&headers, &rows, &names(&["Region"]), 3),
        Ok(vec![(text("amount"), 2)])
    );
}

#[test]
fn windows_need_rows_on_both_sides() {
    let row = |current: bool, previous: bool| WindowRow {
        row: 0,
        current,
        previous,
    };
    assert_eq!(
        check_window_rows(&vec![row(true, false), row(true, true)]),
        Ok((2, 1))
    );
    assert_eq!(
        check_window_rows(&vec![row(true, false)]),
        Err(text("period windows contain no comparable rows (current=1, previous=0)"))
    );
    let mut args = driver_options();
    args.top_drivers = 0;
    assert_eq!(
        check_investigate_options(&args),
        Err(text("--top-drivers must be >= 1"))
    );
    args.top_drivers = 1;
    args.drivers = names(&["units"]);
    args.driver_preset = Some(DriverPreset::Id);
    assert_eq!(
        check_investigate_options(&args),
        Err(text("use either --drivers or --driver-preset, not both"))
    );
}

#[test]
fn drivers_are_written_as_calls() {
    let headers = names(&["Units", "price"]);
    let read = |raw: &str| parse_investigate_driver(raw, &headers);
    let d = read(" AVG( price ) ").expect("a driver");
    assert_eq!((d.label.as_str(), d.col_idx, d.agg), ("avg(price)", Some(1), DriverAgg::Mean));
    let d = read("n_distinct(units)").expect("a driver");
    assert_eq!(d.label, "count_distinct(Units)");
    let d = read("count(*)").expect("a driver");
    assert_eq!((d.col_idx, d.agg), (None, DriverAgg::Count));
    let d = read("units").expect("a driver");
    assert_eq!((d.label.as_str(), d.agg), ("Units", DriverAgg::Sum));
    assert_eq!(read("  ").err(), Some(text("empty driver token")));
    assert_eq!(
        read("max(price)").err(),
        Some(text("unsupported driver function 'max'; use sum, avg/mean, count, count_distinct"))
    );
    assert_eq!(
        read("sum(tier)").err(),
        Some(text("group column 'tier' not found"))
    );
}

#[test]
fn drivers_are_chosen_by_the_kind_of_their_column() {
    let headers = names(&["revenue", "day", "order_id", "order_uuid", "channel", "units"]);
    let rows: Vec<Vec<String>> = (0..40)
        .map(|i| {
            names(&[
                &format!("{}", i * 3),
                "2026-01-01",
                &format!("o{i}"),
                &format!("u{i}"),
                if i % 2 == 0 { "Direct" } else { "Market" },
                &format!("{i}"),
            ])
        })
        .collect();
    let numeric = vec![(text("units"), 5)];
    let args = driver_options();
    let labels = |specs: Vec<DriverSpec>| -> Vec<String> {
        specs.into_iter().map(|s| s.label).collect()
    };
    assert_eq!(
        labels(auto_select_driver_specs(&args, &headers, &rows, 0, 1, &numeric)),
        names(&["count_distinct(order_id)", "count_distinct(channel)", "sum(units)"])
    );
    let preset = |p: DriverPreset| {
        labels(select_driver_specs_by_preset(&args, p, &headers, &rows, 0, 1, &numeric))
    };
    assert_eq!(preset(DriverPreset::Id), names(&["count_distinct(order_id)"]));
    assert_eq!(preset(DriverPreset::Category), names(&["count_distinct(channel)"]));
    assert_eq!(preset(DriverPreset::Amount), names(&["sum(units)"]));
    let spec = |label: &str| DriverSpec {
        label: text(label),
        col_idx: Some(0),
        agg: DriverAgg::Sum,
    };
    let kept = settle_driver_specs(
        vec![spec("sum(a)"), spec("sum(b)"), spec("sum(a)")],
        &names(&["a", "b"]),
        &names(&["b"]),
    );
    assert_eq!(labels(kept.expect("drivers")), names(&["sum(a)"]));
    assert_eq!(
        settle_driver_specs(vec![spec("sum(a)")], &[], &names(&["A"])).err(),
        Some(text("no usable driver columns found; pass --drivers explicitly"))
    );
}

#[test]
fn segments_are_counted_and_ranked() {
    let headers = names(&["region", "name", "revenue", "day"]);
    let rows = vec![
        names(&["West", "urgent order", "5", "2026-02-02"]),
        names(&["", "urgent repair", "1", "2026-01-02"]),
        names(&["West", "repair", "2", "2025-01-01"]),
    ];
    let request = AnalysisRequest {
        group_by: names(&["region", "name"]),
        auto_group_k: 5,
        metrics: names(&["revenue"]),
        count_only: false,
        rank_by: None,
        where_clauses: vec![],
        date_column: Some(text("day")),
    };
    let plan = plan_analysis(&headers, &rows, &request).expect("a plan");
    let grouping = group_rows(&plan, &rows, false, false);
    let words = count_words(&collect_words(&plan, &rows, &grouping.rows));
    assert_eq!(
        top_word_counts(words, 2),
        vec![(text("repair"), 2), (text("urgent"), 2)]
    );
    let windows = WindowSet {
        time_grain: None,
        period: None,
        current_start: day(2026, 2, 1),
        current_end: day(2026, 2, 28),
        previous_start: day(2026, 1, 1),
        previous_end: day(2026, 1, 31),
    };
    let dated = date_rows(&plan, &rows, &grouping.rows, windows, false).expect("dates");
    assert_eq!(count_sides(&dated), (1, 1));
    assert!(matches!(dated[0].side, Side::Current));
    assert_eq!(dated[0].key, "West | urgent order");
    assert_eq!(
        compose_group_key(&rows[1], &plan.group_idxs, &plan.groups, true),
        "(blank) | urgent repair"
    );
    let segs = vec![
        Segment {
            key: text("(blank)"),
            rows: vec![0, 1, 2, 3],
        },
        Segment {
            key: text("West"),
            rows: vec![4, 5],
        },
    ];
    let item = |segment: usize, count: u64, value: f64| Ranked {
        segment,
        count,
        value: num(value),
    };
    let ranked = vec![item(0, 4, 2.0), item(1, 2, -7.0)];
    assert_eq!(largest_segment(&ranked, &segs), Some(1));
    assert_eq!(top_five_records(&ranked), 6);
    assert_eq!(blank_records(&segs), 4);
    let low: Vec<usize> = rank_by_value_ascending(ranked)
        .iter()
        .map(|r| r.segment)
        .collect();
    assert_eq!(low, vec![1, 0]);
}

fn json(source: &str) -> Json {
    read_json_document(source, "a.json", "base").expect("valid json")
}

#[test]
fn artifacts_state_their_metrics() {
    let a = json(r#"{"group_by":["region"],"metrics":["Revenue_p50"],"primary_metric":"revenue","groups":[{"group":"West","count":3,"count_share_pct":60.0,"REVENUE":12.5},{"count":2}]}"#);
    let b = json(r#"{"group_by":["tier"],"metrics":[],"groups":[]}"#);
    assert!(artifact_has_metric(&a, "revenue"));
    assert!(!artifact_has_metric(&a, "profit"));
    assert_eq!(
        validate_metric_in_artifact(&a, "profit", "new"),
        Err(text("new artifact does not contain metric 'profit' in groups/metrics"))
    );
    assert_eq!(
        infer_artifact_group_dimension(Some(&a), Some(&b)).err(),
        Some(text("base/new artifacts use different group_by dimensions ('region' vs 'tier')"))
    );
    assert_eq!(infer_artifact_group_dimension(Some(&a), None), Ok(text("region")));
    assert_eq!(
        infer_artifact_group_dimension(None, None).err(),
        Some(text("could not infer grouping dimension from artifact JSON; pass --dimensions explicitly"))
    );
    let groups = groups_to_map(&a, "revenue");
    assert_eq!(groups.len(), 2);
    let west = groups.iter().find(|g| g.0 == "West").expect("the west");
    assert_eq!((west.1.records, west.1.value), (3, num(12.5)));
    assert!(groups.iter().any(|g| g.0 == "(unknown)"));
    assert_eq!(resolve_step_metric(&a, &b, &None), Ok(text("revenue")));
    assert_eq!(
        resolve_step_metric(&b, &b, &None).err(),
        Some(text("primary metric missing in reports; pass --metric explicitly"))
    );
    assert!(value_by_key_case_insensitive(&a, "GROUPS").is_some());
    let mut args = search_options();
    assert_eq!(
        metric_for_tables(&args).err(),
        Some(text("--metric is required when --base/--new point to CSV datasets"))
    );
    args.metric = Some(text("revenue"));
    assert_eq!(metric_for_tables(&args), Ok(text("revenue")));
    assert!(needs_inferred_dimensions(&args, InvestigateInputKind::CsvDatasets));
    assert!(!needs_inferred_dimensions(&args, InvestigateInputKind::JsonArtifacts));
    assert_eq!(
        write_scope_clauses(&pairs(&[("region", "West"), ("tier", "Gold")])),
        names(&["region=West", "tier=Gold"])
    );
}

#[test]
fn scopes_bind_each_dimension() {
    let west = pairs(&[("region", "West"), ("tier", "Gold")]);
    let east = pairs(&[("Region", "East")]);
    assert_eq!(scope_value(&west, "REGION"), Some("West"));
    assert_eq!(
        conflicting_scope_binding(&west, &east),
        Some((text("region"), text("West"), text("East")))
    );
    assert_eq!(conflicting_scope_binding(&west, &west), None);
    assert_eq!(investigation_scope_key(&[]), "global");
    assert_eq!(investigation_scope_key(&west), "region=West,tier=Gold");
    assert!(scope_starts_with(&west, &west[..1]));
    assert!(!scope_starts_with(&west[..1], &west));
    let available = names(&["region", "tier"]);
    assert_eq!(resolve_dimension_name("TIER", &available), Some(text("tier")));
    assert_eq!(resolve_dimension_name("size", &available), None);
    let ordered = ordered_scope_from_filters(
        &Some(pairs(&[("Tier", "Gold"), ("region", "West")])),
        &available,
    );
    assert_eq!(ordered, Ok(west));
    assert!(ordered_scope_from_filters(&Some(pairs(&[("size", "L")])), &available).is_err());
    assert_eq!(infer_scope_from_last_step(&[]), None);
    assert!(!is_repeated_path(&[], "region", &[]));
    assert_ne!(default_planner_reason("drill_down"), default_planner_reason("stop"));
}

/// Ten days around the turn of February: five in January, five in February.
fn dated_rows() -> (Vec<String>, Vec<Vec<String>>) {
    let headers = names(&["Revenue", "event_date", "units", "channel"]);
    let rows = (0..10)
        .map(|i| {
            let day = if i < 5 {
                format!("2026-01-{:02}", 27 + i)
            } else {
                format!("2026-02-{:02}", i - 4)
            };
            names(&[&format!("{}", 10 * i), &day, &format!("{i}"), "Direct"])
        })
        .collect();
    (headers, rows)
}

#[test]
fn an_investigation_settles_its_subject() {
    let (headers, rows) = dated_rows();
    let now = day(2026, 3, 12);
    let mut args = driver_options();
    let locate = |args: &InvestigateArgs| locate_investigation(args, &headers, &rows, now).expect("an answer");
    let subject = locate(&args).expect("a subject");
    assert_eq!((subject.metric.name.as_str(), subject.metric.idx), ("Revenue", 0));
    assert_eq!((subject.date.name.as_str(), subject.date.idx), ("event_date", 1));
    assert_eq!(
        windows_summary(subject.windows),
        "2026-02-01..2026-02-28 vs 2026-01-01..2026-01-31"
    );
    let found = find_investigated_rows(&rows, &subject)
        .expect("an answer")
        .expect("rows");
    assert_eq!(found.len(), 10);
    assert!(found[..5].iter().all(|w| w.previous && !w.current));
    assert!(found[5..].iter().all(|w| w.current && !w.previous));
    assert_eq!(
        find_investigated_rows(&rows[..5].to_vec(), &subject)
            .expect("an answer")
            .err(),
        Some(text("period windows contain no comparable rows (current=0, previous=5)"))
    );
    assert_eq!(
        locate_investigation(&args, &headers, &vec![], now)
            .expect("an answer")
            .err(),
        Some(text("input CSV has no rows"))
    );
    args.metric = text("profit");
    assert_eq!(locate(&args).err(), Some(text("group column 'profit' not found")));
    args.top_drivers = 0;
    assert_eq!(locate(&args).err(), Some(text("--top-drivers must be >= 1")));
    args = driver_options();
    args.date_column = Some(text("week"));
    assert_eq!(locate(&args).err(), Some(text("group column 'week' not found")));
    args.date_column = None;
    args.current_start = Some(text("2026-02-01"));
    assert_eq!(locate(&args).err(), Some(text("--current-end is required")));
}

#[test]
fn drivers_are_named_or_found() {
    let (headers, rows) = dated_rows();
    let mut args = driver_options();
    let subject = locate_investigation(&args, &headers, &rows, day(2026, 3, 12))
        .expect("an answer")
        .expect("a subject");
    let numeric = vec![(text("units"), 2)];
    let choose = |args: &InvestigateArgs| -> Result<Vec<String>, String> {
        choose_drivers(args, &headers, &rows, &subject, &numeric)
            .map(|specs| specs.into_iter().map(|s| s.label).collect())
    };
    args.drivers = names(&["avg(units)", "count(*)", "mean(units)"]);
    assert_eq!(choose(&args), Ok(names(&["avg(units)", "count(*)"])));
    args.driver_exclude = names(&["COUNT(*)"]);
    assert_eq!(choose(&args), Ok(names(&["avg(units)"])));
    args.driver_include = names(&["channel"]);
    assert_eq!(
        choose(&args),
        Err(text("no usable driver columns found; pass --drivers explicitly"))
    );
    args.drivers = names(&["units", "max(units)", "sum(tier)"]);
    assert_eq!(
        choose(&args),
        Err(text("unsupported driver function 'max'; use sum, avg/mean, count, count_distinct"))
    );
    args = driver_options();
    args.driver_preset = Some(DriverPreset::Amount);
    assert_eq!(choose(&args), Ok(names(&["sum(units)"])));
}

#[test]
fn a_decomposition_has_two_sides() {
    let (headers, rows) = dated_rows();
    let now = day(2026, 3, 12);
    let mut args = two_factor_options();
    args.date_column = Some(text("Event_Date"));
    args.previous_start = None;
    let split = |args: &AnalyzeDriversArgs| split_driver_table(args, &headers, &rows, now).expect("an answer");
    let halves = split(&args).expect("two sides");
    assert_eq!(halves.base, vec![0, 1, 2, 3, 4]);
    assert_eq!(halves.new, vec![5, 6, 7, 8, 9]);
    assert_eq!(halves.metric.name, "Revenue");
    assert_eq!(halves.summary, "2026-02-01..2026-02-28 vs 2026-01-01..2026-01-31");
    args.metric = text("profit");
    assert_eq!(split(&args).err(), Some(text("group column 'profit' not found")));
    args.anchor_date = Some(text("2025-06-01"));
    assert_eq!(
        split(&args).err(),
        Some(text("analyze-drivers needs non-empty base and new frames"))
    );
    args.date_column = None;
    assert_eq!(
        split(&args).err(),
        Some(text("--date-column is required when --input-new is not provided"))
    );
    let (metric, summary) =
        match_driver_tables(&two_factor_options(), &headers, 3, "b.csv", &headers, 4).expect("two tables");
    assert_eq!((metric.idx, summary.as_str()), (0, "base=a.csv new=b.csv"));
    let refused = |rows: usize, other: &Vec<String>| {
        match_driver_tables(&two_factor_options(), &headers, rows, "b.csv", other, 4).err()
    };
    assert_eq!(
        refused(0, &headers),
        Some(text("analyze-drivers needs non-empty base and new frames"))
    );
    assert_eq!(
        refused(1, &names(&["revenue"])),
        Some(text("input and input-new must have identical headers"))
    );
}

#[test]
fn rows_of_a_query_are_split_by_their_dates() {
    let (headers, rows) = dated_rows();
    let now = day(2026, 3, 12);
    let args = search_options();
    let halves = split_query_rows(&args, &headers, &rows, &rows, now)
        .expect("an answer")
        .expect("two sides");
    assert_eq!(halves.base, vec![0, 1, 2, 3, 4]);
    assert_eq!(halves.new, vec![5, 6, 7, 8, 9]);
    assert_eq!(
        halves.base_label,
        "postgres query (event_date) previous window 2026-01-01..2026-01-31"
    );
    assert_eq!(
        halves.new_label,
        "postgres query (event_date) current window 2026-02-01..2026-02-28"
    );
    assert_eq!(
        split_query_rows(&args, &headers, &rows, &rows[5..].to_vec(), now)
            .expect("an answer")
            .err(),
        Some(text(
            "period windows contain no comparable rows from postgres query (previous=0, current=5)"
        ))
    );
}

#[test]
fn a_date_column_is_looked_up_without_blanks_around_its_name() {
    let (mut headers, rows) = dated_rows();
    let now = day(2026, 3, 12);
    let args = search_options();
    headers[1] = text(" event_date ");
    let split = |headers: &Vec<String>| {
        split_query_rows(&args, headers, &rows, &rows, now).expect("an answer")
    };
    assert_eq!(
        split(&headers).err(),
        Some(text("group column 'event_date' not found"))
    );
    headers[3] = text("EVENT_DATE");
    assert_eq!(
        split(&headers).err(),
        Some(text(
            "period windows contain no comparable rows from postgres query (previous=0, current=0)"
        ))
    );
}

#[test]
fn a_step_analyses_its_scope() {
    let mut args = search_options();
    args.top_movers = 12;
    args.max_branches = 3;
    let options = step_analysis_options(&args, "region", "revenue", &pairs(&[("tier", "Gold")]));
    assert_eq!(options.group_by, names(&["region"]));
    assert_eq!(options.metrics, names(&["revenue"]));
    assert_eq!(options.rank_by, Some(text("revenue")));
    assert_eq!(options.where_clauses, names(&["tier=Gold"]));
    assert_eq!((options.top, options.min_records), (48, 1));
    args.top_movers = 1;
    args.max_branches = 2;
    assert_eq!(step_analysis_options(&args, "region", "revenue", &[]).top, 10);
    args.top_movers = usize::MAX;
    assert_eq!(step_analysis_options(&args, "region", "revenue", &[]).top, usize::MAX);
}
