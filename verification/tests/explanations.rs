//! Written analyses: evidence, comparisons and pages.

use factorlens::artifacts::{pair_segments, read_json_document};
use factorlens::comparison::{
    analysis_size, comparison_metric, rank_by_share_change, render_comparison, CompareBrief,
    ShiftTexts,
};
use factorlens::digits::{fmt_num, signed_fmt_num};
use factorlens::evidence::{
    build_analysis_evidence, build_analysis_prompt_context, investigate_scope_to_text,
    read_evidence_figures, read_group_figures, EvidenceTexts, GroupTexts, Movement, MovementTexts,
    TopLevelTexts,
};
use factorlens::explaining::{
    choose_explanation, explain_analyze_system_prompt, explain_analyze_user_prompt,
    explain_system_prompt, explain_user_prompt, list_evidence,
};
use factorlens::investigation::InvestigationMover;
use factorlens::json::Json;
use factorlens::num::Num;
use factorlens::numeric::approx_number_match;
use factorlens::webpage::markdown_to_html;

fn text(s: &str) -> String {
    s.to_string()
}

fn num(x: f64) -> Num {
    Num { bits: x.to_bits() }
}

fn float(n: Num) -> f64 {
    f64::from_bits(n.bits)
}

fn json(source: &str) -> Json {
    read_json_document(source, "a.json", "analysis").expect("valid json")
}

fn grouped(x: f64) -> String {
    fmt_num(num(x), &format!("{:.2}", x.abs()), 2)
}

fn signed(x: f64) -> String {
    signed_fmt_num(num(x), &format!("{:.2}", x.abs()), 2)
}

fn movement(m: Movement) -> MovementTexts {
    MovementTexts {
        value: grouped(float(m.value)),
        share: format!("{:+.2}", float(m.share_pp)),
    }
}

fn evidence(v: &Json) -> Vec<String> {
    let groups: Vec<GroupTexts> = read_group_figures(v)
        .iter()
        .map(|g| GroupTexts {
            share: format!("{:.1}", float(g.share_pct)),
            value: grouped(float(g.value)),
        })
        .collect();
    let f = read_evidence_figures(v);
    let base: f64 = f.base_values.iter().map(|n| float(*n)).sum();
    let new: f64 = f.new_values.iter().map(|n| float(*n)).sum();
    let c = f.concentrations;
    let texts = EvidenceTexts {
        top_level: TopLevelTexts {
            base_total: grouped(base),
            new_total: grouped(new),
            delta: signed(new - base),
            top1_base: format!("{:.2}", float(c.top1_base)),
            top1_new: format!("{:.2}", float(c.top1_new)),
            top1_delta: format!("{:+.2}", float(c.top1_delta)),
            top5_base: format!("{:.2}", float(c.top5_base)),
            top5_new: format!("{:.2}", float(c.top5_new)),
            top5_delta: format!("{:+.2}", float(c.top5_delta)),
        },
        strongest: movement(f.strongest),
        changes: f.changes.iter().map(|m| movement(*m)).collect(),
        follow_ups: f.follow_ups.iter().map(|m| movement(*m)).collect(),
    };
    build_analysis_evidence(v, &groups, &texts)
}

const INVESTIGATION: &str = r#"{
    "question": "Why did revenue change?",
    "mode": "change_drivers",
    "stopping_reason": "reached max depth 3",
    "recommended_next_question": "Drill into provider",
    "major_global_changes": [
        {
            "dimension": "organization_name",
            "segment": "Acme",
            "primary_metric": "revenue_usd",
            "delta_primary_metric_value": -1200.5,
            "delta_share_pp": 2.3
        }
    ],
    "steps": [
        {
            "depth": 0,
            "dimension": "region",
            "primary_metric": "revenue_usd",
            "segment_count": 6,
            "top1_concentration_base_pct": 35.0,
            "top1_concentration_new_pct": 42.0,
            "top1_concentration_delta_pp": 7.0,
            "top5_concentration_base_pct": 88.0,
            "top5_concentration_new_pct": 91.0,
            "top5_concentration_delta_pp": 3.0,
            "movers": [
                {
                    "segment": "US",
                    "base_primary_metric_value": 10000.0,
                    "new_primary_metric_value": 12000.0,
                    "delta_primary_metric_value": 2000.0,
                    "delta_share_pp": 5.5
                }
            ]
        }
    ]
}"#;

#[test]
fn build_analysis_evidence_supports_investigate_schema() {
    let evidence = evidence(&json(INVESTIGATION));
    assert!(
        evidence
            .iter()
            .any(|e| e.contains("schema") || e.contains("investigate mode")),
        "missing investigate summary evidence: {:?}",
        evidence
    );
    assert!(
        evidence
            .iter()
            .any(|e| e.contains("major_change") && e.contains("Acme")),
        "missing major change evidence: {:?}",
        evidence
    );
    assert!(
        evidence
            .iter()
            .any(|e| e.contains("top_level_strongest") && e.contains("US")),
        "missing top-level strongest mover evidence: {:?}",
        evidence
    );
}

#[test]
fn build_analysis_prompt_context_marks_investigate_schema() {
    let v = json(
        r#"{
        "question": "Why did revenue change?",
        "mode": "change_drivers",
        "planner": "deterministic",
        "stopping_reason": "reached max depth 2",
        "steps": []
    }"#,
    );
    let context = build_analysis_prompt_context(&v, &vec![text("sample evidence")]);
    assert!(context.contains("schema=investigate"));
    assert!(context.contains("mode=change_drivers"));
}

#[test]
fn evidence_lines_are_written_out() {
    let lines = evidence(&json(INVESTIGATION));
    assert_eq!(
        lines[0],
        "investigate mode='change_drivers' question='Why did revenue change?'"
    );
    assert_eq!(
        lines[1],
        "top_level grouped_by='region' segments=6 revenue_usd base_total=10_000.00 new_total=12_000.00 delta=+2_000.00 top1_base_pct=35.00 top1_new_pct=42.00 top1_delta_pp=+7.00 top5_base_pct=88.00 top5_new_pct=91.00 top5_delta_pp=+3.00"
    );
    assert_eq!(
        lines[2],
        "top_level_strongest segment='US' delta_revenue_usd=2_000.00 delta_share_pp=+5.50"
    );
    assert_eq!(
        lines[3],
        "major_change dimension='organization_name' segment='Acme' delta_revenue_usd=-1_200.50 delta_share_pp=+2.30"
    );
    assert_eq!(lines[4], "stop_reason='reached max depth 3'");
    assert_eq!(lines[5], "recommended_next='Drill into provider'");
    assert_eq!(lines.len(), 6);
}

#[test]
fn groups_and_alerts_are_evidence() {
    let v = json(
        r#"{"records": 15, "segments": 2, "primary_metric": "revenue_usd",
            "group_by": ["region"], "metrics": ["revenue_usd", 3],
            "alerts": ["High", 7],
            "groups": [{"group": "US", "count": 10, "count_share_pct": 66.666, "revenue_usd": 1234.5},
                       {"count": 5}]}"#,
    );
    let lines = evidence(&v);
    assert_eq!(
        lines,
        vec![
            text("group='US' records=10 record_share_pct=66.7 revenue_usd=1_234.50"),
            text("group='(unknown)' records=5 record_share_pct=0.0 revenue_usd=0.00"),
            text("alert='High'")
        ]
    );
    assert_eq!(
        build_analysis_prompt_context(&v, &vec![text("x"), text("y")]),
        "records=15 | segments=2 | group_by=region | metrics=revenue_usd\nalerts=High\nevidence:\n[E1] x\n[E2] y"
    );
    assert_eq!(
        build_analysis_prompt_context(&json("{}"), &vec![]),
        "records=0 | segments=0 | group_by=unknown | metrics=unknown\nalerts=none\nevidence:\nnone"
    );
}

#[test]
fn scopes_are_written_as_bindings() {
    assert_eq!(
        investigate_scope_to_text(&json(r#"[["region", "US"], ["bad"], 3, ["tier", "A", "B"]]"#)),
        "region=US, tier=A"
    );
    assert_eq!(investigate_scope_to_text(&json("[]")), "global");
    assert_eq!(investigate_scope_to_text(&json("null")), "global");
}

#[test]
fn comparisons_name_the_largest_shifts_first() {
    let base = json(
        r#"{"records": 100, "segments": 3, "primary_metric": "revenue",
            "groups": [{"group": "A", "count": 50, "count_share_pct": 50.0, "revenue": 5.0},
                       {"group": "B|C", "count": 50, "count_share_pct": 50.0, "revenue": 6.0}]}"#,
    );
    let new = json(
        r#"{"records": 80, "segments": 1,
            "groups": [{"group": "B|C", "count": 80, "count_share_pct": 100.0, "revenue": 9.0}]}"#,
    );
    let metric = comparison_metric(&base, &new);
    assert_eq!(metric, "revenue");
    let movers: Vec<InvestigationMover> = pair_segments(&base, &new, &metric)
        .into_iter()
        .map(|p| InvestigationMover {
            delta_share_pp: num(float(p.new.share_pct) - float(p.base.share_pct)),
            delta_primary_metric_value: num(float(p.new.value) - float(p.base.value)),
            segment: p.segment,
            base_records: p.base.records,
            new_records: p.new.records,
            base_share_pct: p.base.share_pct,
            new_share_pct: p.new.share_pct,
            base_primary_metric_value: p.base.value,
            new_primary_metric_value: p.new.value,
        })
        .collect();
    let movers = rank_by_share_change(movers, 1);
    assert_eq!(movers.len(), 1);
    assert_eq!(movers[0].segment, "A");
    let page = render_comparison(&CompareBrief {
        base: text("base.json"),
        new: text("new.json"),
        base_size: analysis_size(&base),
        new_size: analysis_size(&new),
        metric,
        base_top5: text("100.0"),
        new_top5: text("100.0"),
        top5_delta: text("+0.0"),
        texts: vec![ShiftTexts {
            base_share: text("50.0"),
            new_share: text("0.0"),
            delta_share: text("-50.0"),
            base_value: grouped(5.0),
            new_value: grouped(0.0),
            delta_value: grouped(-5.0),
        }],
        movers,
    });
    assert!(page.contains("- Segment count changed from 3 to 1 (-2).\n"), "{}", page);
    assert!(
        page.ends_with("| A | 50 | 0 | 50.0% | 0.0% | -50.0 | 5.00 | 0.00 | -5.00 |\n"),
        "{}",
        page
    );
    assert_eq!(comparison_metric(&json("{}"), &json("{}")), "primary_metric");
}

#[test]
fn markdown_becomes_a_page() {
    let page = markdown_to_html("# Title\n\n| a | b |\n|---|---|\n| 1 | 2 |\n");
    assert!(page.starts_with("<!doctype html>"));
    assert!(page.contains("<h1>Title</h1>"), "{}", page);
    assert!(page.contains("<table>"), "{}", page);
    assert!(page.contains("table{border-collapse:collapse;width:100%}"));
    assert!(page.ends_with("</body></html>"));
}

#[test]
fn numbers_agree_but_for_rounding() {
    let agree = |a: f64, b: f64| {
        approx_number_match(num(a), num(b), num((a - b).abs()))
    };
    assert!(agree(10.0, 10.04));
    assert!(!agree(10.0, 10.1));
    assert!(agree(1000.0, 1000.4));
    assert!(agree(-999.8, -1000.2));
    assert!(!agree(1000.0, 1000.6));
    assert!(agree(1_000_000.0, 1_000_001.0));
    assert!(!agree(1_000_000.0, 1_000_001.5));
    assert!(!agree(f64::NAN, 1.0));
}

#[test]
fn an_explanation_keeps_to_the_facts() {
    let evidence = vec!["West grew".to_string(), "East fell".to_string()];
    let shown = |answer: &str, strict: bool, grounded: bool| {
        choose_explanation(answer, "why", strict, grounded, &evidence, 1)
    };
    assert_eq!(shown(" - West leads [E1] ", true, true), "- West leads [E1]");
    assert_eq!(shown("- West leads [E1]", true, false), "- West grew [E1]");
    assert_eq!(shown("- West leads", true, true), "- West grew [E1]");
    assert_eq!(shown("- West leads", false, false), "- West leads");
    assert_eq!(
        list_evidence(&evidence),
        vec!["- [E1] West grew".to_string(), "- [E2] East fell".to_string()]
    );
    assert_eq!(
        explain_user_prompt("q", "c"),
        "Question: q\n\nArtifact context:\nc"
    );
    assert_eq!(
        explain_analyze_user_prompt("q", "c"),
        "Question: q\n\nAnalysis context:\nc"
    );
    assert!(explain_system_prompt().starts_with("You are a risk analysis assistant."));
    assert!(explain_analyze_system_prompt().ends_with("Use at most 2 decimal places."));
}
