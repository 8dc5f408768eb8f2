//! Configuration files, paths and suggested profiles.

use factorlens::args::{
    AggKind, AnalyzeArgs, AutoDriversMode, BackendArg, InvestigateArgs, InvestigateContribMode,
    InvestigateOutputFormat, InvestigateWorkflowArgs, InvestigationModeArg, InvestigationPlanner,
    OutputFormat, PostgresSslMode, SampleMode, SuggestProfileFormat,
};
use factorlens::config::{apply_investigate_config, InvestigateConfigEntry};
use factorlens::num::Num;
use factorlens::paths::{
    default_analyze_investigate_out, default_analyze_out, default_suggest_profile_path,
    detect_investigate_input_kind, investigate_both_paths, list_artifact_paths,
    path_with_extension,
};
use factorlens::sources::{
    investigate_config_source, load_investigate_config, load_investigate_profile, ConfigSource,
    Section,
};
use factorlens::suggest::{build_suggested_profile_config, AnalyzeSuggestReport};

fn text(s: &str) -> String {
    s.to_string()
}

fn num(x: f64) -> Num {
    Num { bits: x.to_bits() }
}

fn investigate_workflow_args() -> InvestigateWorkflowArgs {
    InvestigateWorkflowArgs {
        question: text("why did revenue change"),
        mode: None,
        config: None,
        profile: None,
        profile_config: None,
        base: Some(text("artifacts/base.json")),
        new: Some(text("artifacts/new.json")),
        postgres_url: None,
        postgres_ssl_mode: PostgresSslMode::Prefer,
        postgres_ca_file: None,
        query: None,
        query_file: None,
        metric: None,
        date_column: None,
        time_grain: None,
        period: None,
        anchor_date: None,
        current_start: None,
        current_end: None,
        previous_start: None,
        previous_end: None,
        dimensions: vec![text("region")],
        drill_fields: vec![text("channel")],
        max_depth: 2,
        max_branches: 2,
        min_contribution: num(5.0),
        min_delta_abs: num(0.0),
        min_score_improvement: num(0.0),
        min_slice_rows: 5,
        top_movers: 2,
        planner: InvestigationPlanner::Deterministic,
        planner_backend: BackendArg::Local,
        planner_model: None,
        verbose: false,
        trace: false,
        output_format: InvestigateOutputFormat::Json,
        out: None,
    }
}

fn entry_of(v: &toml::Value) -> InvestigateConfigEntry {
    let s = |name: &str| v.get(name).and_then(|x| x.as_str()).map(text);
    let n = |name: &str| v.get(name).and_then(|x| x.as_integer());
    let f = |name: &str| v.get(name).and_then(|x| x.as_float()).map(num);
    let b = |name: &str| v.get(name).and_then(|x| x.as_bool());
    let l = |name: &str| {
        v.get(name).and_then(|x| x.as_array()).map(|xs| {
            xs.iter()
                .filter_map(|x| x.as_str())
                .map(text)
                .collect::<Vec<_>>()
        })
    };
    InvestigateConfigEntry {
        question: s("question"),
        mode: s("mode"),
        base: s("base"),
        new: s("new"),
        postgres_url: s("postgres_url"),
        postgres_ssl_mode: s("postgres_ssl_mode"),
        postgres_ca_file: s("postgres_ca_file"),
        query: s("query"),
        query_file: s("query_file"),
        metric: s("metric"),
        date_column: s("date_column"),
        time_grain: s("time_grain"),
        period: s("period"),
        anchor_date: s("anchor_date"),
        current_start: s("current_start"),
        current_end: s("current_end"),
        previous_start: s("previous_start"),
        previous_end: s("previous_end"),
        dimensions: l("dimensions"),
        drill_fields: l("drill_fields"),
        max_depth: n("max_depth").map(|x| x as usize),
        max_branches: n("max_branches").map(|x| x as usize),
        min_contribution: f("min_contribution"),
        min_delta_abs: f("min_delta_abs"),
        min_score_improvement: f("min_score_improvement"),
        min_slice_rows: n("min_slice_rows").map(|x| x as u64),
        top_movers: n("top_movers").map(|x| x as usize),
        planner: s("planner"),
        planner_backend: s("planner_backend"),
        planner_model: s("planner_model"),
        verbose: b("verbose"),
        trace: b("trace"),
        output_format: s("output_format"),
        out: s("out"),
    }
}

fn apply(
    args: InvestigateWorkflowArgs,
    source: &str,
) -> Result<InvestigateWorkflowArgs, String> {
    let section = match investigate_config_source(&args)? {
        ConfigSource::Nothing => return apply_investigate_config(args, None),
        ConfigSource::File { path } => load_investigate_config(source, &path)?,
        ConfigSource::Profile { path, profile } => {
            load_investigate_profile(source, &path, &profile)?
        }
    };
    let root: toml::Value = toml::from_str(source).map_err(|e| e.to_string())?;
    let entry = match section {
        Section::Investigate => entry_of(&root["investigate"]),
        Section::Profile { name } => entry_of(&root["profiles"][name.as_str()]),
        Section::Root => entry_of(&root),
    };
    apply_investigate_config(args, Some(entry))
}

#[test]
fn investigate_config_applies_defaults_when_cli_not_set() {
    let source = r#"
[investigate]
question = "Why did config question apply?"
mode = "compare_snapshots"
metric = "revenue_usd"
dimensions = ["region", "channel"]
drill_fields = ["channel"]
max_depth = 5
planner = "llm"
planner_backend = "local"
planner_model = "/models/llama.gguf"
"#;
    let mut args = investigate_workflow_args();
    args.config = Some(text("investigate.toml"));
    args.question = String::new();
    args.metric = None;
    args.dimensions = vec![];
    args.drill_fields = vec![];
    args.max_depth = 2;
    args.planner = InvestigationPlanner::Deterministic;
    args.planner_backend = BackendArg::Local;
    args.planner_model = None;

    let out = apply(args, source).expect("apply config");
    assert_eq!(out.question, "Why did config question apply?");
    assert_eq!(out.mode, Some(InvestigationModeArg::CompareSnapshots));
    assert_eq!(out.metric.as_deref(), Some("revenue_usd"));
    assert_eq!(out.dimensions, vec![text("region"), text("channel")]);
    assert_eq!(out.drill_fields, vec![text("channel")]);
    assert_eq!(out.max_depth, 5);
    assert_eq!(out.planner, InvestigationPlanner::Llm);
    assert!(matches!(out.planner_backend, BackendArg::Local));
    assert_eq!(out.planner_model.as_deref(), Some("/models/llama.gguf"));
}

#[test]
fn investigate_profile_config_applies_named_profile() {
    let source = r#"
[profiles.change]
question = "Why did revenue change?"
mode = "change_drivers"
metric = "revenue_usd"
dimensions = ["region", "channel"]
"#;
    let mut args = investigate_workflow_args();
    args.question = String::new();
    args.metric = None;
    args.dimensions = vec![];
    args.profile = Some(text("change"));
    args.profile_config = Some(text("profiles.toml"));

    let out = apply(args, source).expect("apply config");
    assert_eq!(out.question, "Why did revenue change?");
    assert_eq!(out.mode, Some(InvestigationModeArg::ChangeDrivers));
    assert_eq!(out.metric.as_deref(), Some("revenue_usd"));
    assert_eq!(out.dimensions, vec![text("region"), text("channel")]);
}

#[test]
fn investigate_config_with_multiple_profiles_requires_profile_name() {
    let source = r#"
[profiles.change]
question = "Why did revenue change?"

[profiles.conc]
question = "Why did concentration increase?"
"#;
    let mut args = investigate_workflow_args();
    args.config = Some(text("profiles.toml"));
    let err = apply(args, source)
        .err()
        .expect("expected multi-profile error");
    assert!(err.contains("multiple [profiles.*] entries"));
}

#[test]
fn investigate_profile_config_requires_profile_name() {
    let mut args = investigate_workflow_args();
    args.profile = None;
    args.profile_config = Some(text("profiles/investigate.example.toml"));
    let err = apply(args, "")
        .err()
        .expect("expected profile_config validation error");
    assert!(err.contains("requires --profile"));
}

#[test]
fn investigate_config_does_not_override_non_default_cli_values() {
    let source = "\n[investigate]\nmax_depth = 3\nmin_contribution = 2.0\n";
    let mut args = investigate_workflow_args();
    args.config = Some(text("investigate.toml"));
    args.max_depth = 7;
    args.min_contribution = num(9.0);
    let out = apply(args, source).expect("apply config");
    assert_eq!(out.max_depth, 7);
    assert_eq!(out.min_contribution, num(9.0));
}

#[test]
fn investigate_config_dedups_dimensions_and_drill_fields() {
    let source = r#"
[investigate]
dimensions = ["region", "Region", "channel", "region"]
drill_fields = ["channel", "channel", "product_line", "CHANNEL"]
"#;
    let mut args = investigate_workflow_args();
    args.config = Some(text("investigate.toml"));
    args.dimensions = vec![];
    args.drill_fields = vec![];
    let out = apply(args, source).expect("apply config");
    assert_eq!(out.dimensions, vec![text("region"), text("channel")]);
    assert_eq!(out.drill_fields, vec![text("channel"), text("product_line")]);
}

#[test]
fn a_configuration_that_is_no_toml_is_refused() {
    let err = load_investigate_config("[", "a.toml").err().unwrap();
    assert!(
        err.starts_with("failed to parse investigate config 'a.toml': "),
        "{}",
        err
    );
    assert_eq!(
        load_investigate_profile("[profiles.a]\ntop = 1\n", "a.toml", "b").err(),
        Some(text("investigate profile 'b' not found in a.toml"))
    );
}

#[test]
fn investigate_both_paths_respects_json_out() {
    let (md, json) = investigate_both_paths("artifacts/custom.json");
    assert_eq!(md, "artifacts/custom.md");
    assert_eq!(json, "artifacts/custom.json");
}

#[test]
fn investigate_both_paths_generates_json_for_md_out() {
    let (md, json) = investigate_both_paths("artifacts/custom.md");
    assert_eq!(md, "artifacts/custom.md");
    assert_eq!(json, "artifacts/custom.json");
}

#[test]
fn default_output_prefixes_are_command_specific() {
    let analyze_args = AnalyzeArgs {
        input: Some(text("data/demo.csv")),
        postgres_url: None,
        query: None,
        query_file: None,
        postgres_ssl_mode: PostgresSslMode::Prefer,
        postgres_ca_file: None,
        profile: None,
        profile_config: None,
        group_by: vec![],
        auto_group_k: 3,
        metrics: vec![],
        count_only: false,
        agg: AggKind::Sum,
        percentiles: vec![],
        normalize_text_groups: false,
        word_freq: false,
        date_column: None,
        time_grain: None,
        period: None,
        anchor_date: None,
        current_start: None,
        current_end: None,
        previous_start: None,
        previous_end: None,
        where_clauses: vec![],
        exclude_blank_groups: false,
        rank_by: None,
        top: 20,
        top_insights: 0,
        opportunity_min_records: 2,
        min_records: 1,
        alert_top5_share: None,
        alert_blank_share: None,
        alert_rule: vec![],
        output_format: OutputFormat::Both,
        out: None,
    };
    assert_eq!(
        default_analyze_out(&analyze_args),
        "artifacts/analyze_demo.md"
    );

    let investigate_args = InvestigateArgs {
        input: text("data/demo.csv"),
        metric: text("revenue"),
        drivers: vec![],
        driver_include: vec![],
        driver_exclude: vec![],
        driver_preset: None,
        auto_drivers: AutoDriversMode::Deterministic,
        dedup_drivers: true,
        driver_contrib: InvestigateContribMode::Percent,
        top_drivers: 3,
        output_format: InvestigateOutputFormat::Both,
        out: None,
        max_id_drivers: 3,
        max_cat_drivers: 2,
        max_num_drivers: 2,
        date_column: None,
        time_grain: None,
        period: None,
        anchor_date: None,
        current_start: None,
        current_end: None,
        previous_start: None,
        previous_end: None,
    };
    assert_eq!(
        default_analyze_investigate_out(&investigate_args),
        "artifacts/investigate_demo.md"
    );
}

#[test]
fn default_suggest_profile_path_uses_selected_format() {
    let base = "artifacts/demo_suggest.md";
    assert_eq!(
        default_suggest_profile_path(base, SuggestProfileFormat::Toml),
        "artifacts/demo_suggest.toml"
    );
    assert_eq!(
        default_suggest_profile_path(base, SuggestProfileFormat::Json),
        "artifacts/demo_suggest.json"
    );
}

fn report() -> AnalyzeSuggestReport {
    AnalyzeSuggestReport {
        input: text("data/demo.csv"),
        sampled_rows: 10,
        sample_mode: SampleMode::Head,
        sample_seed: 42,
        profile_name: text("demo"),
        suggested_group_by: vec![text("region")],
        suggested_metrics: vec![text("revenue_usd")],
        suggested_rank_by: Some(text("revenue_usd")),
        suggested_date_column: Some(text("order_date")),
        warnings: vec![],
        columns: vec![],
    }
}

#[test]
fn build_suggested_profile_config_supports_json() {
    let raw = build_suggested_profile_config(&report(), "demo", 3, 3, SuggestProfileFormat::Json);
    let v: serde_json::Value = serde_json::from_str(&raw).expect("valid json");
    assert_eq!(v["profiles"]["demo"]["group_by"][0], "region");
    assert_eq!(v["profiles"]["demo"]["metrics"][0], "revenue_usd");
}

#[test]
fn names_are_quoted_in_a_json_profile() {
    let mut r = report();
    r.suggested_group_by = vec![text("a \"b\"")];
    let raw = build_suggested_profile_config(&r, "demo", 3, 3, SuggestProfileFormat::Json);
    let v: serde_json::Value = serde_json::from_str(&raw).expect("valid json");
    assert_eq!(v["profiles"]["demo"]["group_by"][0], "a \"b\"");
}

#[test]
fn control_characters_are_escaped_in_a_json_profile() {
    let mut r = report();
    let name = "a\\b\n\t\r\u{8}\u{c}\u{1}\u{1f}\u{7f}\u{e9}/\"";
    r.suggested_group_by = vec![text(name)];
    let raw = build_suggested_profile_config(&r, "demo", 3, 3, SuggestProfileFormat::Json);
    let written = "\"a\\\\b\\n\\t\\r\\b\\f\\u0001\\u001f\u{7f}\u{e9}/\\\"\"";
    assert!(raw.contains(written), "unexpected text: {}", raw);
    let v: serde_json::Value = serde_json::from_str(&raw).expect("valid json");
    assert_eq!(v["profiles"]["demo"]["group_by"][0], name);
}

#[test]
fn a_toml_profile_is_read_back() {
    let raw = build_suggested_profile_config(&report(), "demo", 3, 3, SuggestProfileFormat::Toml);
    let v: toml::Value = toml::from_str(&raw).expect("valid toml");
    assert_eq!(
        v["profiles"]["demo"]["rank_by"].as_str(),
        Some("revenue_usd")
    );
    assert_eq!(v["profiles"]["demo"]["auto_group_k"].as_integer(), Some(3));
}

#[test]
fn detect_investigate_input_kind_rejects_mixed_extensions() {
    let err = detect_investigate_input_kind("artifacts/base.json", "data/new.csv")
        .expect_err("expected extension mismatch error");
    assert!(
        err.contains("both be JSON artifacts or both be CSV datasets"),
        "unexpected error: {}",
        err
    );
}

#[test]
fn paths_follow_the_conventions_of_the_system() {
    for p in ["a.b", "dir/a.b", "dir/a", ".hidden", "dir/.hidden", "a.", "a.b.c", "dir.d/a", "a/"] {
        let expected = std::path::Path::new(p).with_extension("json");
        assert_eq!(path_with_extension(p, "json"), expected.to_str().unwrap(), "{}", p);
    }
    let paths = list_artifact_paths("out");
    assert_eq!(
        paths,
        vec![
            text("out/factors.json"),
            text("out/exposures.csv"),
            text("out/attribution.csv"),
            text("out/outliers.csv")
        ]
    );
}
