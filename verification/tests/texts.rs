//! Texts, numbers and the small rules that everything else rests on.

use factorlens::config::dedup_csv_fields;
use factorlens::digits::{
    count_text, fmt_num, fmt_num_commas, group_digits, read_count, shift_text, signed_fmt_num,
};
use factorlens::drill::{investigate_available_dimensions, route_investigation_mode};
use factorlens::llm::{
    build_client, clean_generation, Backend, BedrockClient, Client, LlmClient,
    LocalLlamaCppClient, ProgramOutput,
};
use factorlens::messages::{can_preview, compact_error_message, compact_trace_preview};
use factorlens::metric::metric_matches_expected;
use factorlens::num::Num;
use factorlens::numeric::{contains_long_decimal, float_text};
use factorlens::order::{sort_texts, text_before};
use factorlens::planned::{local_planner_model, summary_numbers_are_grounded};
use factorlens::scan::{lines_of, replaced, split_text, words_of};
use factorlens::scope::{format_scope, merge_scope, scope_is_superset_of};
use factorlens::text::{trimmed, white};
use factorlens::workflow::power_up_to_limit;

fn text(s: &str) -> String {
    s.to_string()
}

fn names(xs: &[&str]) -> Vec<String> {
    xs.iter().map(|x| text(x)).collect()
}

fn num(x: f64) -> Num {
    Num { bits: x.to_bits() }
}

fn pairs(xs: &[(&str, &str)]) -> Vec<(String, String)> {
    xs.iter().map(|(a, b)| (text(a), text(b))).collect()
}

#[test]
fn white_space_is_that_of_unicode() {
    for n in 0..=0x10ffffu32 {
        if let Some(c) = char::from_u32(n) {
            assert_eq!(white(c), c.is_whitespace(), "{:?}", c);
        }
    }
    assert_eq!(trimmed("\u{3000} a b \n"), "a b");
}

#[test]
fn numbers_order_as_binary64_values_do() {
    let values = [
        f64::NEG_INFINITY,
        -1e300,
        -1.0,
        -f64::MIN_POSITIVE,
        -0.0,
        0.0,
        f64::MIN_POSITIVE,
        0.5,
        1.0,
        1e300,
        f64::INFINITY,
        f64::NAN,
        -f64::NAN,
    ];
    for a in values {
        assert_eq!(num(a).nan(), a.is_nan());
        assert_eq!(num(a).finite(), a.is_finite());
        assert_eq!(num(a).abs().bits, a.abs().to_bits());
        for b in values {
            assert_eq!(num(a).less(num(b)), a < b, "{} < {}", a, b);
            assert_eq!(num(a).at_most(num(b)), a <= b, "{} <= {}", a, b);
        }
    }
}

#[test]
fn number_texts_are_those_that_can_be_read() {
    for s in [
        "1", "-1", "+1", "1.", ".5", ".", "", "-", "1e5", "1e", "e5", "1e+5", "1e-5", "inf",
        "Infinity", "-inf", "nan", "NaN", "-nan", "infinit", "0x10", "1_000", " 1", "1 ", "1.5e3.2",
        "+.5e-7", "1E5",
    ] {
        assert_eq!(float_text(s), s.parse::<f64>().is_ok(), "{:?}", s);
    }
}

#[test]
fn counts_are_read_as_they_are_written() {
    for s in [
        "0", "7", "+7", "-7", "", "+", "007", "18446744073709551615", "18446744073709551616", "1a",
        "\u{661}",
    ] {
        assert_eq!(read_count(s), s.parse::<usize>().ok(), "{:?}", s);
    }
    for n in [0usize, 9, 10, 12345, usize::MAX] {
        assert_eq!(count_text(n), n.to_string());
        assert_eq!(read_count(&count_text(n)), Some(n));
    }
}

#[test]
fn digits_are_grouped_by_three() {
    assert_eq!(group_digits("1234567", '_'), "1_234_567");
    assert_eq!(group_digits("123", '_'), "123");
    assert_eq!(fmt_num(num(-1234.5), "1234.50", 2), "-1_234.50");
    assert_eq!(fmt_num_commas(num(1234567.0), "1234567", 0), "1,234,567");
    assert_eq!(signed_fmt_num(num(0.5), "0.50", 2), "+0.50");
    assert_eq!(signed_fmt_num(num(-0.5), "0.50", 2), "-0.50");
    assert_eq!(shift_text(3, 5), "-2");
    assert_eq!(shift_text(5, 5), "+0");
    assert_eq!(shift_text(u64::MAX, 0), "-1");
}

#[test]
fn texts_are_split_like_those_of_the_standard_library() {
    for s in ["a\nb\r\nc", "\n", "", "a\n\n", "a\r", "\r\n"] {
        let expected: Vec<&str> = s.lines().collect();
        assert_eq!(lines_of(s), expected, "{:?}", s);
    }
    for s in [" a  b\u{a0}c ", "", "x"] {
        let expected: Vec<&str> = s.split_whitespace().collect();
        assert_eq!(words_of(s), expected, "{:?}", s);
    }
    for s in ["a | b | c", " | ", "", "a |", "a | | b"] {
        let expected: Vec<&str> = s.split(" | ").collect();
        assert_eq!(split_text(s, " | "), expected, "{:?}", s);
    }
    for s in ["```x````", "aaa", ""] {
        assert_eq!(replaced(s, "```", " "), s.replace("```", " "), "{:?}", s);
    }
}

#[test]
fn texts_sort_as_strings_do() {
    let xs = names(&["b", "a", "", "\u{e9}", "ab", "z", "a"]);
    let mut expected = xs.clone();
    expected.sort();
    assert_eq!(sort_texts(xs.clone()), expected);
    for a in &xs {
        for b in &xs {
            assert_eq!(text_before(a, b), a < b);
        }
    }
}

#[test]
fn fields_are_kept_once() {
    let once = dedup_csv_fields(&names(&[" a ", "A", "", "b", "a"]));
    assert_eq!(once, names(&["a", "b"]));
    assert_eq!(dedup_csv_fields(&once), once);
}

#[test]
fn merged_scopes_keep_what_is_required() {
    let required = pairs(&[("region", "US")]);
    let merged = merge_scope(&required, &pairs(&[("channel", "Direct"), ("Region", "EU")]));
    assert!(scope_is_superset_of(&merged, &required));
    assert_eq!(merged[0], (text("region"), text("US")));
    assert_eq!(merge_scope(&merged, &merged), merged);
    assert_eq!(format_scope(&[]), "global");
}

#[test]
fn dimensions_are_offered_once() {
    assert_eq!(
        investigate_available_dimensions("region", &names(&["channel", "Region", "tier"])),
        names(&["region", "channel", "tier"])
    );
}

#[test]
fn every_metric_matches_itself() {
    for m in ["revenue_usd", "conversion_rate", "x"] {
        assert!(metric_matches_expected(m, m), "{}", m);
    }
    assert!(!metric_matches_expected("", ""));
}

#[test]
fn questions_are_routed_whatever_their_case() {
    assert_eq!(
        route_investigation_mode("CONCENTRATION \u{c4}"),
        route_investigation_mode("concentration \u{e4}")
    );
}

#[test]
fn long_decimals_are_noticed() {
    assert!(contains_long_decimal("it is 1.234", 2));
    assert!(!contains_long_decimal("it is 1.23", 2));
}

#[test]
fn messages_are_cut_to_size() {
    let long = "x".repeat(300);
    let cut = compact_error_message(&long);
    assert_eq!(cut.len(), 180);
    assert!(cut.ends_with("..."));
    assert_eq!(compact_error_message(""), "unknown error");
    assert_eq!(compact_trace_preview("a\nb\r", 20), "a\\nb ");
    assert!(!can_preview("\u{e9}\u{e9}\u{e9}", 4));
}

#[test]
fn powers_stop_at_the_limit() {
    assert_eq!(power_up_to_limit(3, 4), 81);
    assert_eq!(power_up_to_limit(10, 40), usize::MAX);
    assert_eq!(power_up_to_limit(0, 0), 1);
}

#[test]
fn ungrounded_numbers_are_refused() {
    assert!(summary_numbers_are_grounded(&vec![], 3));
    assert!(summary_numbers_are_grounded(&vec![vec![false, true]], 2));
    assert!(!summary_numbers_are_grounded(
        &vec![vec![true, false], vec![false, false]],
        2
    ));
    assert!(summary_numbers_are_grounded(&vec![vec![]], 0));
}

#[test]
fn clients_put_questions_to_their_programs() {
    let local = match build_client(Backend::Local, text("model.gguf")) {
        Client::Local(c) => c,
        Client::Bedrock(_) => panic!("expected a local client"),
    };
    let call = local.invocation("Be brief.", "Why?", None);
    assert_eq!(call.program, "llama-cli");
    assert_eq!(call.arguments[0], "-m");
    assert_eq!(call.arguments[1], "model.gguf");
    assert!(call.arguments.iter().any(|a| a.contains("[USER]\nWhy?")));

    let remote = BedrockClient { model: text("m") };
    let call = remote.invocation("Be brief.", "Why \"now\"?", Some("eu-west-1"));
    assert_eq!(call.program, "aws");
    assert!(call.arguments.contains(&text("eu-west-1")));
    let output = ProgramOutput {
        success: true,
        stdout: text(r#"{"output": {"message": {"content": [{"text": " Because. "}]}}}"#),
        stdout_is_utf8: true,
        stderr: String::new(),
    };
    assert_eq!(remote.answer("Be brief.", &output), Ok(text("Because.")));
    let broken = ProgramOutput {
        success: true,
        stdout: text("{}"),
        stdout_is_utf8: true,
        stderr: String::new(),
    };
    assert_eq!(
        remote.answer("Be brief.", &broken),
        Err(text(
            "bedrock response missing output.message.content[0].text"
        ))
    );
    let failed = ProgramOutput {
        success: false,
        stdout: String::new(),
        stdout_is_utf8: true,
        stderr: text("no credentials"),
    };
    assert!(LocalLlamaCppClient { model: text("m") }
        .answer("Be brief.", &failed)
        .is_err());
    assert!(!clean_generation("[SYSTEM]\nBe brief.\n\n[USER]\nWhy?\nassistant\nBecause.", "Be brief.")
        .contains("[SYSTEM]"));
}

#[test]
fn the_planner_setting_comes_before_the_general_one() {
    assert_eq!(
        local_planner_model(&Some(text(" a ")), &Some(text("b"))),
        Some(text("a"))
    );
    assert_eq!(
        local_planner_model(&Some(text(" ")), &Some(text("b"))),
        Some(text("b"))
    );
    assert_eq!(local_planner_model(&None, &None), None);
}
