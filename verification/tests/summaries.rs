//! Summaries and answers: how they are cleaned, judged and grounded.

use factorlens::answers::{
    deterministic_explain_analyze_from_evidence, explain_analyze_answer_is_usable,
    llm_summary_is_usable, sanitize_explain_analyze_answer, sanitize_llm_summary,
};
use factorlens::args::InvestigationMode;
use factorlens::branches::recommended_next_question;
use factorlens::investigation::{InvestigationMover, InvestigationStep};
use factorlens::num::Num;
use factorlens::numeric::extract_numeric_texts;
use factorlens::planned::{
    collect_allowed_summary_numbers, summary_numbers_are_grounded, Figure,
};

fn text(s: &str) -> String {
    s.to_string()
}

fn num(x: f64) -> Num {
    Num { bits: x.to_bits() }
}

fn close_enough(a: f64, b: f64) -> bool {
    let scale = a.abs().max(b.abs());
    let tol = if scale >= 1_000_000.0 {
        1.0
    } else if scale >= 1_000.0 {
        0.5
    } else {
        0.05
    };
    (a - b).abs() <= tol
}

fn numbers(source: &str) -> Vec<f64> {
    extract_numeric_texts(source)
        .iter()
        .filter_map(|t| t.parse::<f64>().ok())
        .collect()
}

fn grounded(answer: &str, allowed: &[f64]) -> bool {
    let close: Vec<Vec<bool>> = numbers(answer)
        .iter()
        .map(|n| allowed.iter().map(|a| close_enough(*n, *a)).collect())
        .collect();
    summary_numbers_are_grounded(&close, allowed.len())
}

fn figures(steps: &Vec<InvestigationStep>, stop_reason: &str) -> Vec<f64> {
    collect_allowed_summary_numbers(steps, stop_reason)
        .iter()
        .filter_map(|f| match f {
            Figure::Count(n) => Some(*n as f64),
            Figure::Value(v) => Some(f64::from_bits(v.bits)),
            Figure::Written(t) => t.parse::<f64>().ok(),
        })
        .collect()
}

fn usable(answer: &str, steps: &Vec<InvestigationStep>, stop_reason: &str) -> bool {
    llm_summary_is_usable(answer, grounded(answer, &figures(steps, stop_reason)))
}

fn explains(answer: &str, evidence: &[String]) -> bool {
    let mut allowed: Vec<f64> = evidence.iter().flat_map(|e| numbers(e)).collect();
    allowed.extend((1..=evidence.len()).map(|i| i as f64));
    explain_analyze_answer_is_usable(answer, grounded(answer, &allowed))
}

fn us_step() -> InvestigationStep {
    InvestigationStep {
        depth: 0,
        dimension: text("region"),
        scope: vec![],
        primary_metric: text("revenue_usd"),
        base_records: 100,
        new_records: 150,
        segment_count: 4,
        top5_concentration_base_pct: num(100.0),
        top5_concentration_new_pct: num(100.0),
        top5_concentration_delta_pp: num(0.0),
        top1_concentration_base_pct: num(29.0),
        top1_concentration_new_pct: num(47.33),
        top1_concentration_delta_pp: num(18.33),
        movers: vec![InvestigationMover {
            segment: text("US"),
            base_records: 29,
            new_records: 71,
            base_share_pct: num(29.0),
            new_share_pct: num(47.33),
            delta_share_pp: num(18.33),
            base_primary_metric_value: num(4_020_509.65),
            new_primary_metric_value: num(13_561_697.76),
            delta_primary_metric_value: num(9_541_188.11),
        }],
    }
}

#[test]
fn sanitize_llm_summary_strips_prompt_and_json_noise() {
    let raw = r#"Provide 2-4 short lines. Keep it concise and grounded.
{
  "question": "Why did revenue concentration increase?"
}
assistant
Revenue concentration increased mainly due to US growth.
Within US, Direct gained share while Marketplace lost share.
Further drill-down stopped at max depth.
"#;
    let cleaned = sanitize_llm_summary(raw, "Why did revenue concentration increase?");
    assert!(cleaned.contains("Revenue concentration increased mainly due to US growth."));
    assert!(!cleaned.contains("\"question\""));
    assert!(!cleaned.contains("Provide 2-4 short lines"));
}

#[test]
fn sanitize_llm_summary_trims_trailing_pipe_noise() {
    let raw = "Revenue concentration increased in US. |\nWithin US, Direct gained share. |";
    let cleaned = sanitize_llm_summary(raw, "Why did revenue concentration increase?");
    assert!(!cleaned.contains('|'));
    assert!(cleaned.contains("Revenue concentration increased in US."));
}

#[test]
fn llm_summary_quality_rejects_long_decimals_and_prompt_tokens() {
    let steps = vec![us_step()];
    assert!(!usable(
        "Revenue moved from 28.999999 to 47.333333 [USER]",
        &steps,
        "reached max depth 2"
    ));
    assert!(usable(
        "US share increased from 29.00% to 47.33% due to Direct growth.",
        &steps,
        "reached max depth 2"
    ));
    assert!(!usable(
        "US delta was 954118.11 which drove concentration.",
        &steps,
        "reached max depth 2"
    ));
    assert!(!usable(
        "The revenue concentration increased because the US region's share",
        &steps,
        "reached max depth 2"
    ));
}

#[test]
fn recommended_next_question_skips_zero_signal_mover() {
    let step = InvestigationStep {
        depth: 1,
        dimension: text("region"),
        scope: vec![(text("region"), text("US"))],
        primary_metric: text("revenue_usd"),
        base_records: 50,
        new_records: 50,
        segment_count: 1,
        top5_concentration_base_pct: num(100.0),
        top5_concentration_new_pct: num(100.0),
        top5_concentration_delta_pp: num(0.0),
        top1_concentration_base_pct: num(100.0),
        top1_concentration_new_pct: num(100.0),
        top1_concentration_delta_pp: num(0.0),
        movers: vec![InvestigationMover {
            segment: text("US"),
            base_records: 50,
            new_records: 50,
            base_share_pct: num(100.0),
            new_share_pct: num(100.0),
            delta_share_pp: num(0.0),
            base_primary_metric_value: num(100.0),
            new_primary_metric_value: num(100.0),
            delta_primary_metric_value: num(0.0),
        }],
    };

    let q = recommended_next_question(
        InvestigationMode::ConcentrationDrivers,
        Some(&step),
        &format!("{:.2}", 0.0f64),
    );
    assert!(q.contains("reduce top-5 concentration"));
    assert!(!q.contains("Drill deeper"));
}

#[test]
fn recommended_next_question_includes_scope_and_signed_delta() {
    let step = InvestigationStep {
        depth: 4,
        dimension: text("plan_tier"),
        scope: vec![
            (text("region"), text("West")),
            (text("channel"), text("Direct")),
            (text("product_line"), text("Core")),
        ],
        primary_metric: text("revenue_usd"),
        base_records: 20,
        new_records: 20,
        segment_count: 3,
        top5_concentration_base_pct: num(100.0),
        top5_concentration_new_pct: num(100.0),
        top5_concentration_delta_pp: num(0.0),
        top1_concentration_base_pct: num(60.0),
        top1_concentration_new_pct: num(20.0),
        top1_concentration_delta_pp: num(-40.0),
        movers: vec![InvestigationMover {
            segment: text("Premium"),
            base_records: 10,
            new_records: 3,
            base_share_pct: num(50.0),
            new_share_pct: num(9.17),
            delta_share_pp: num(-40.83),
            base_primary_metric_value: num(800_000.0),
            new_primary_metric_value: num(508_576.75),
            delta_primary_metric_value: num(-291_423.25),
        }],
    };

    let q = recommended_next_question(
        InvestigationMode::ConcentrationDrivers,
        Some(&step),
        &format!("{:.2}", (-40.83f64).abs()),
    );
    assert!(q.contains("within scope [region=West"));
    assert!(q.contains("plan_tier='Premium'"));
    assert!(q.contains("delta share -40.83 pp"));
}

#[test]
fn sanitize_explain_analyze_answer_normalizes_to_bullets() {
    let raw = "Here is the summary:\n- Revenue grew 10.00% [E1]\n- Top segment changed 5.00 [E2]";
    let out = sanitize_explain_analyze_answer(raw, 3);
    assert!(out.lines().all(|l| l.trim_start().starts_with('-')));
    assert!(out.contains("[E1]"));
}

#[test]
fn sanitize_explain_analyze_answer_strips_inline_markdown_noise() {
    let raw = "- Investigate the **//Other export//** segment [E1]\n- Revenue is `10.00` [E2]";
    let out = sanitize_explain_analyze_answer(raw, 3);
    assert!(
        !out.contains("**"),
        "unexpected markdown emphasis in: {}",
        out
    );
    assert!(
        !out.contains("`"),
        "unexpected markdown code ticks in: {}",
        out
    );
    assert!(!out.contains("//"), "unexpected slash emphasis in: {}", out);
    assert!(
        out.contains("[E1]"),
        "evidence citation should be preserved"
    );
}

#[test]
fn explain_analyze_answer_requires_citations_and_grounded_numbers() {
    let evidence = vec![
        text("group='US' records=10 revenue_usd=100.00"),
        text("group='EU' records=5 revenue_usd=50.00"),
    ];
    assert!(explains("- US revenue is 100.00 [E1]", &evidence));
    assert!(!explains("- US revenue is 999.99 [E1]", &evidence));
    assert!(!explains("- US revenue is 100.00", &evidence));
}

#[test]
fn evidence_answers_when_nothing_else_does() {
    let evidence = vec![text("first"), text("second"), text("third")];
    assert_eq!(
        deterministic_explain_analyze_from_evidence("why", &evidence, 2),
        "- first [E1]\n- second [E2]"
    );
    assert_eq!(
        deterministic_explain_analyze_from_evidence("why", &[], 2),
        "- Unable to provide a grounded summary from the provided analysis context."
    );
}

#[test]
fn numbers_are_read_out_of_a_text() {
    assert_eq!(numbers("from -29.00% to 1,234.5 in 2026"), vec![-29.0, 1234.5, 2026.0]);
}
