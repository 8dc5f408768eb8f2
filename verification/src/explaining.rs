//! Explanations: what a model is asked, and which answer is shown.

use vstd::prelude::*;

use crate::answers;
use crate::answers::{
    deterministic_explain_analyze_from_evidence, explain_analyze_answer_is_usable,
};
use crate::digits;
use crate::digits::count_text;
use crate::numeric;
use crate::report::say;
use crate::scan;
use crate::text;
use crate::text::{cat4, trimmed};

verus! {

/// What a model is told that explains an attribution.
pub fn explain_system_prompt() -> (r: &'static str)
    ensures
        r@
            == "You are a risk analysis assistant. Use only the provided artifact context. If data is missing, say unknown. Respond in plain text only. Do not output code, role tags, or tool instructions. Be specific with dates and factor contributions when available."@,
{
    "You are a risk analysis assistant. Use only the provided artifact context. If data is missing, say unknown. Respond in plain text only. Do not output code, role tags, or tool instructions. Be specific with dates and factor contributions when available."
}

/// What a model is asked that explains an attribution.
pub fn explain_user_prompt(question: &str, context: &str) -> (r: String)
    ensures
        r@ == "Question: "@ + question@ + "\n\nArtifact context:\n"@ + context@,
{
    cat4("Question: ", question, "\n\nArtifact context:\n", context)
}

/// What a model is told that explains an analysis.
pub fn explain_analyze_system_prompt() -> (r: &'static str)
    ensures
        r@
            == "You are an analytics assistant. Use only provided analysis context. If missing, say unknown. Respond in plain text bullets only. Cite evidence IDs like [E1], [E2] for each factual claim. Use at most 2 decimal places."@,
{
    "You are an analytics assistant. Use only provided analysis context. If missing, say unknown. Respond in plain text bullets only. Cite evidence IDs like [E1], [E2] for each factual claim. Use at most 2 decimal places."
}

/// What a model is asked that explains an analysis.
pub fn explain_analyze_user_prompt(question: &str, context: &str) -> (r: String)
    ensures
        r@ == "Question: "@ + question@ + "\n\nAnalysis context:\n"@ + context@,
{
    cat4("Question: ", question, "\n\nAnalysis context:\n", context)
}

/// The explanation that is shown: the model's, or that of the evidence alone
/// where only facts may be shown and the model's answer does not keep to them.
pub open spec fn shown_explanation(
    answer: Seq<char>,
    strict_facts: bool,
    numbers_grounded: bool,
    evidence: Seq<Seq<char>>,
    max_bullets: usize,
) -> Seq<char> {
    let usable = !text::is_blank(answer) && !numeric::long_decimal_from(answer, 2, 0)
        && scan::contains(answer, "[E"@) && numbers_grounded;
    if strict_facts && !usable {
        text::trim(answers::evidence_list(evidence, max_bullets))
    } else {
        text::trim(answer)
    }
}

/// Chooses the explanation that is shown. `answer` is the model's, cleaned;
/// `numbers_grounded` says whether every number that it mentions is close to
/// one that the evidence gives.
pub fn choose_explanation(
    answer: &str,
    question: &str,
    strict_facts: bool,
    numbers_grounded: bool,
    evidence: &Vec<String>,
    max_bullets: usize,
) -> (r: String)
    ensures
        r@ == shown_explanation(
            answer@,
            strict_facts,
            numbers_grounded,
            text::views(evidence@),
            max_bullets,
        ),
{
    if strict_facts && !explain_analyze_answer_is_usable(answer, numbers_grounded) {
        let told = deterministic_explain_analyze_from_evidence(
            question,
            evidence.as_slice(),
            max_bullets,
        );
        trimmed(told.as_str())
    } else {
        trimmed(answer)
    }
}

/// The first `n` lines of evidence with the names by which they are cited.
pub open spec fn cited_evidence(evidence: Seq<Seq<char>>, n: int) -> Seq<Seq<char>> {
    Seq::new(
        n as nat,
        |i: int| "- [E"@ + digits::decimal((i + 1) as nat) + "] "@ + evidence[i],
    )
}

/// The evidence with the names by which it is cited.
pub fn list_evidence(evidence: &Vec<String>) -> (r: Vec<String>)
    ensures
        text::views(r@) == cited_evidence(text::views(evidence@), evidence@.len() as int),
{
    let ghost all = text::views(evidence@);
    let mut out: Vec<String> = Vec::new();
    let mut i: usize = 0;
    assert(text::views(out@) =~= cited_evidence(all, 0));
    while i < evidence.len()
        invariant
            i <= evidence.len(),
            all == text::views(evidence@),
            text::views(out@) == cited_evidence(all, i as int),
        decreases evidence.len() - i,
    {
        assert(all[i as int] == evidence@[i as int]@);
        let number = count_text(i + 1);
        say(&mut out, cat4("- [E", number.as_str(), "] ", evidence[i].as_str()));
        i += 1;
        assert(text::views(out@) =~= cited_evidence(all, i as int));
    }
    out
}

/// An answer is shown as it is, without the space around it, unless only facts
/// are wanted and it tells a number that nothing grounds, a long decimal, no
/// evidence or nothing at all; then the evidence itself is shown.
pub proof fn law_ungrounded_answers_are_not_shown(
    answer: Seq<char>,
    strict_facts: bool,
    numbers_grounded: bool,
    evidence: Seq<Seq<char>>,
    max_bullets: usize,
)
    ensures
        ({
            let shown = shown_explanation(
                answer,
                strict_facts,
                numbers_grounded,
                evidence,
                max_bullets,
            );
            &&& !strict_facts ==> shown == text::trim(answer)
            &&& strict_facts && (!numbers_grounded || text::is_blank(answer)
                || numeric::long_decimal_from(answer, 2, 0) || !scan::contains(answer, "[E"@))
                ==> shown == text::trim(answers::evidence_list(evidence, max_bullets))
            &&& numbers_grounded && !text::is_blank(answer) && !numeric::long_decimal_from(
                answer,
                2,
                0,
            ) && scan::contains(answer, "[E"@) ==> shown == text::trim(answer)
        }),
{
}

} // verus!
