//! Cleaning and judging what a language model writes.

use vstd::prelude::*;

use crate::digits;
use crate::digits::count_text;
use crate::list;
use crate::numeric;
use crate::numeric::contains_long_decimal;
use crate::planner;
use crate::scan;
use crate::scan::{
    begins, mentions, join_text, last_position_of, length, lines_of, replaced, slice, words_of,
};
use crate::text;
use crate::text::{
    blank, cat2, cat5, chars_of, digit, eq_ignore_case, letter, same, text_of, to_lower, trimmed,
    trimmed_end, trimmed_end_of, trimmed_start_of,
};

verus! {

/// The word that precedes a model's own answer in a transcript.
pub open spec fn answer_mark() -> Seq<char> {
    "assistant"@
}

/// The answer in a transcript: what follows the last mark, if that is not
/// blank, else everything; trimmed.
pub open spec fn answer_body(raw: Seq<char>) -> Seq<char> {
    match scan::find_last(raw, answer_mark()) {
        Some(i) => {
            let tail = text::trim(raw.skip(i + answer_mark().len()));
            if tail.len() > 0 {
                tail
            } else {
                text::trim(raw)
            }
        },
        None => text::trim(raw),
    }
}

fn body_of(raw: &str) -> (r: String)
    ensures
        r@ == answer_body(raw@),
{
    match last_position_of(raw, "assistant") {
        Some(i) => {
            let n: usize = length(raw);
            let m: usize = length("assistant");
            let rest = slice(raw, i + m, n);
            assert(rest@ =~= raw@.skip(i + answer_mark().len()));
            let tail = trimmed(rest.as_str());
            if !tail.as_str().is_empty() {
                return tail;
            }
            trimmed(raw)
        },
        None => trimmed(raw),
    }
}

/// How many ASCII letters a text has.
pub open spec fn letter_count(s: Seq<char>) -> nat {
    text::count_chars(s, |c: char| text::is_letter(c))
}

fn count_letters(s: &str) -> (r: usize)
    ensures
        r == letter_count(s@),
{
    let v = chars_of(s);
    let ghost p = |c: char| text::is_letter(c);
    let mut n: usize = 0;
    let mut i: usize = 0;
    while i < v.len()
        invariant
            v@ == s@,
            i <= v.len(),
            n <= i,
            p == (|c: char| text::is_letter(c)),
            n == text::count_chars(v@.take(i as int), p),
        decreases v.len() - i,
    {
        assert(v@.take(i + 1).drop_last() =~= v@.take(i as int));
        if letter(v[i]) {
            n += 1;
        }
        i += 1;
    }
    assert(v@.take(v@.len() as int) =~= v@);
    n
}

pub open spec fn is_structural(c: char) -> bool {
    c == '{' || c == '}' || c == '[' || c == ']' || c == '"' || c == ':' || c == ','
}

fn structural(c: char) -> (r: bool)
    ensures
        r == is_structural(c),
{
    c == '{' || c == '}' || c == '[' || c == ']' || c == '"' || c == ':' || c == ','
}

fn count_structural(s: &str) -> (r: usize)
    ensures
        r == text::count_chars(s@, |c: char| is_structural(c)),
{
    let v = chars_of(s);
    let ghost p = |c: char| is_structural(c);
    let mut n: usize = 0;
    let mut i: usize = 0;
    while i < v.len()
        invariant
            v@ == s@,
            i <= v.len(),
            n <= i,
            p == (|c: char| is_structural(c)),
            n == text::count_chars(v@.take(i as int), p),
        decreases v.len() - i,
    {
        assert(v@.take(i + 1).drop_last() =~= v@.take(i as int));
        if structural(v[i]) {
            n += 1;
        }
        i += 1;
    }
    assert(v@.take(v@.len() as int) =~= v@);
    n
}

// ---------------------------------------------------------------------------
// Summaries
// ---------------------------------------------------------------------------

/// A line without its list marks and the bars that close it.
pub open spec fn summary_line(line: Seq<char>) -> Seq<char> {
    text::trim(
        text::skip_back(
            text::trim(text::skip_front(text::trim(line), text::only('-'))),
            text::only('|'),
        ),
    )
}

fn clean_summary_line(line: &str) -> (r: String)
    ensures
        r@ == summary_line(line@),
{
    let a = trimmed(trimmed_start_of(trimmed(line).as_str(), '-').as_str());
    trimmed(trimmed_end_of(a.as_str(), '|').as_str())
}

/// Lines that repeat the instructions, in lower case.
pub open spec fn is_instruction(lower: Seq<char>) -> bool {
    scan::starts_with(lower, "provide 2-4 short lines"@) || scan::starts_with(
        lower,
        "here is a concise summary"@,
    ) || scan::starts_with(lower, "summarize investigation findings"@) || scan::starts_with(
        lower,
        "note:"@,
    ) || scan::starts_with(lower, "the final answer is"@) || lower == "assistant"@
        || scan::starts_with(lower, "input:"@)
}

/// Lines that are shell commands, in lower case.
pub open spec fn is_command(lower: Seq<char>) -> bool {
    scan::starts_with(lower, "|"@) || scan::starts_with(lower, "$ "@) || scan::starts_with(
        lower,
        "jq "@,
    ) || scan::contains(lower, "| jq"@) || scan::contains(lower, "cargo run"@) || scan::contains(
        lower,
        "python3 "@,
    )
}

/// Lines that repeat a member of the input document, in lower case.
pub open spec fn is_input_member(lower: Seq<char>) -> bool {
    scan::starts_with(lower, "\"question\""@) || scan::starts_with(lower, "\"steps\""@)
        || scan::starts_with(lower, "\"trace\""@) || scan::starts_with(lower, "\"stop_reason\""@)
        || scan::starts_with(lower, "\"action\""@) || scan::starts_with(lower, "\"decision\""@)
        || scan::starts_with(lower, "\"depth\""@)
}

/// Lines that begin like a JSON value.
pub open spec fn opens_json(line: Seq<char>) -> bool {
    scan::starts_with(line, "{"@) || scan::starts_with(line, "}"@) || scan::starts_with(line, "["@)
        || scan::starts_with(line, "]"@) || scan::starts_with(line, "\""@)
}

/// A cleaned line that says something about the findings.
pub open spec fn is_finding(line: Seq<char>, question: Seq<char>) -> bool {
    let lower = text::lower(line);
    &&& line.len() > 0
    &&& !text::same_ignoring_case(line, text::trim(question))
    &&& !is_instruction(lower)
    &&& !is_command(lower)
    &&& !is_input_member(lower)
    &&& !opens_json(line)
    &&& letter_count(line) >= 8
    &&& text::count_chars(line, |c: char| is_structural(c)) * 2 < planner::byte_len(line)
}

fn finding(line: &str, question: &str) -> (r: bool)
    ensures
        r == is_finding(line@, question@),
{
    if line.is_empty() {
        return false;
    }
    if eq_ignore_case(line, trimmed(question).as_str()) {
        return false;
    }
    let lower = to_lower(line);
    let l = lower.as_str();
    if begins(l, "provide 2-4 short lines") || begins(l, "here is a concise summary") || begins(
        l,
        "summarize investigation findings",
    ) || begins(l, "note:") || begins(l, "the final answer is") || same(l, "assistant") || begins(
        l,
        "input:",
    ) {
        return false;
    }
    if begins(l, "|") || begins(l, "$ ") || begins(l, "jq ") || mentions(l, "| jq") || mentions(
        l,
        "cargo run",
    ) || mentions(l, "python3 ") {
        return false;
    }
    if begins(l, "\"question\"") || begins(l, "\"steps\"") || begins(l, "\"trace\"") || begins(
        l,
        "\"stop_reason\"",
    ) || begins(l, "\"action\"") || begins(l, "\"decision\"") || begins(l, "\"depth\"") {
        return false;
    }
    if begins(line, "{") || begins(line, "}") || begins(line, "[") || begins(line, "]") || begins(
        line,
        "\"",
    ) {
        return false;
    }
    if count_letters(line) < 8 {
        return false;
    }
    let marks: usize = count_structural(line);
    (marks as u128) * 2 < line.len() as u128
}

/// What two lines share when they say the same: their first 64 characters in
/// lower case, with single spaces between words.
pub open spec fn finding_key(line: Seq<char>) -> Seq<char> {
    let flat = scan::join(scan::words(text::lower(line)), " "@);
    flat.take(if flat.len() < 64 {
        flat.len() as int
    } else {
        64
    })
}

fn key_of_finding(line: &str) -> (r: String)
    ensures
        r@ == finding_key(line@),
{
    let words = words_of(to_lower(line).as_str());
    let flat = join_text(&words, " ");
    let v = chars_of(flat.as_str());
    let n: usize = if v.len() < 64 {
        v.len()
    } else {
        64
    };
    let out = text_of(&v, 0, n);
    assert(out@ =~= flat@.take(n as int));
    out
}

/// The findings in an answer, each once, in order.
pub open spec fn findings(raw: Seq<char>, question: Seq<char>) -> Seq<Seq<char>> {
    list::distinct_by(
        list::keep(
            scan::lines(answer_body(raw)).map_values(|l: Seq<char>| summary_line(l)),
            |l: Seq<char>| is_finding(l, question),
        ),
        |l: Seq<char>| finding_key(l),
    )
}

/// At most the first `n` elements.
pub open spec fn at_most<T>(s: Seq<T>, n: int) -> Seq<T> {
    s.take(if s.len() < n {
        s.len() as int
    } else {
        n
    })
}

/// Whether a list of keys holds a key.
fn known(keys: &Vec<String>, key: &str) -> (r: bool)
    ensures
        r == exists|i: int| 0 <= i < keys.len() && (#[trigger] keys@[i])@ == key@,
{
    let mut i: usize = 0;
    while i < keys.len()
        invariant
            i <= keys.len(),
            forall|j: int| 0 <= j < i ==> (#[trigger] keys@[j])@ != key@,
        decreases keys.len() - i,
    {
        if same(keys[i].as_str(), key) {
            return true;
        }
        i += 1;
    }
    false
}

/// Reduces a model's summary to at most four distinct lines that say something.
#[verifier::loop_isolation(false)]
pub fn sanitize_llm_summary(raw: &str, question: &str) -> (r: String)
    ensures
        r@ == scan::join(at_most(findings(raw@, question@), 4), "\n"@),
{
    let body = body_of(raw);
    let lines = lines_of(body.as_str());
    let ghost all = scan::lines(answer_body(raw@)).map_values(|l: Seq<char>| summary_line(l));
    let ghost good = |l: Seq<char>| is_finding(l, question@);
    let ghost key = |l: Seq<char>| finding_key(l);
    let mut out: Vec<String> = Vec::new();
    let mut keys: Vec<String> = Vec::new();
    let mut i: usize = 0;
    assert(text::views(out@) =~= list::distinct_by(list::keep(all.take(0), good), key));
    while i < lines.len()
        invariant
            i <= lines.len(),
            text::views(lines@) == scan::lines(answer_body(raw@)),
            keys.len() == out.len(),
            forall|j: int| 0 <= j < out.len() ==> (#[trigger] keys@[j])@ == finding_key(out@[j]@),
            text::views(out@) == list::distinct_by(list::keep(all.take(i as int), good), key),
        decreases lines.len() - i,
    {
        let line = clean_summary_line(lines[i].as_str());
        assert(text::views(lines@)[i as int] == lines@[i as int]@);
        assert(all.take(i + 1).drop_last() =~= all.take(i as int));
        let ghost before = text::views(out@);
        if finding(line.as_str(), question) {
            let ghost passed = list::keep(all.take(i as int), good);
            assert(passed.push(line@).drop_last() =~= passed);
            let k = key_of_finding(line.as_str());
            let seen = known(&keys, k.as_str());
            assert(seen == exists|j: int|
                0 <= j < before.len() && key(#[trigger] before[j]) == key(line@)) by {
                if seen {
                    let j = choose|j: int| 0 <= j < keys.len() && (#[trigger] keys@[j])@ == k@;
                    assert(key(before[j]) == key(line@));
                }
                if exists|j: int| 0 <= j < before.len() && key(#[trigger] before[j]) == key(
                    line@,
                ) {
                    let j = choose|j: int|
                        0 <= j < before.len() && key(#[trigger] before[j]) == key(line@);
                    assert(keys@[j]@ == k@);
                }
            }
            if !seen {
                out.push(line);
                keys.push(k);
                assert(text::views(out@) =~= before.push(line@));
            }
        }
        i += 1;
    }
    assert(all.take(all.len() as int) =~= all);
    out.truncate(4);
    assert(text::views(out@) =~= at_most(findings(raw@, question@), 4));
    join_text(&out, "\n")
}

/// Ends of sentences and of quotations.
pub open spec fn closes_sentence(c: char) -> bool {
    c == '.' || c == '!' || c == '?' || c == ')' || c == ']' || c == '"' || c == '\''
}

/// The last line of a text that is not blank.
pub open spec fn last_filled(lines: Seq<Seq<char>>) -> Option<Seq<char>>
    decreases lines.len(),
{
    if lines.len() == 0 {
        None
    } else if !text::is_blank(lines.last()) {
        Some(lines.last())
    } else {
        last_filled(lines.drop_last())
    }
}

/// A line without white space around it and without the bars that close it.
pub open spec fn line_tail(line: Seq<char>) -> Seq<char> {
    text::trim_end(text::skip_back(text::trim(line), text::only('|')))
}

/// A summary that breaks off: its last line is nothing but bars, or ends in a
/// letter or digit with at least ten letters in it.
pub open spec fn looks_truncated(summary: Seq<char>) -> bool {
    match last_filled(scan::lines(text::trim(summary))) {
        None => false,
        Some(line) => {
            let tail = line_tail(line);
            tail.len() == 0 || (!closes_sentence(tail.last()) && text::is_word_char(tail.last())
                && letter_count(tail) >= 10)
        },
    }
}

/// Whether a summary breaks off.
pub fn summary_looks_truncated(summary: &str) -> (r: bool)
    ensures
        r == looks_truncated(summary@),
{
    let t = trimmed(summary);
    let lines = lines_of(t.as_str());
    let ghost all = scan::lines(text::trim(summary@));
    let mut i: usize = lines.len();
    assert(all.take(all.len() as int) =~= all);
    while i > 0
        invariant
            i <= lines.len(),
            all == text::views(lines@),
            all == scan::lines(text::trim(summary@)),
            last_filled(all.take(i as int)) == last_filled(all),
        decreases i,
    {
        assert(all.take(i as int).last() == lines@[i - 1]@);
        assert(all.take(i as int).drop_last() =~= all.take(i - 1));
        let line = lines[i - 1].as_str();
        if !blank(line) {
            let tail = trimmed_end(trimmed_end_of(trimmed(line).as_str(), '|').as_str());
            let v = chars_of(tail.as_str());
            if v.len() == 0 {
                return true;
            }
            let c: char = v[v.len() - 1];
            if c == '.' || c == '!' || c == '?' || c == ')' || c == ']' || c == '"' || c == '\'' {
                return false;
            }
            if !(letter(c) || digit(c)) {
                return false;
            }
            return count_letters(tail.as_str()) >= 10;
        }
        i -= 1;
    }
    false
}

/// A summary that can be shown, as far as its words go: it is not blank, does
/// not break off, quotes no prompt, code or command, and has no number with
/// more than two decimals.
pub open spec fn summary_words_usable(summary: Seq<char>) -> bool {
    let lower = text::lower(summary);
    &&& !text::is_blank(summary)
    &&& !looks_truncated(summary)
    &&& !scan::contains(lower, "[user]"@)
    &&& !scan::contains(lower, "[system]"@)
    &&& !scan::contains(lower, "```"@)
    &&& !scan::contains(lower, "| jq"@)
    &&& !scan::contains(lower, "the final answer is"@)
    &&& !numeric::long_decimal_from(summary, 2, 0)
}

/// Whether a summary can be shown. `numbers_grounded` says whether every number
/// that it mentions is close to one of the figures of the investigation.
pub fn llm_summary_is_usable(summary: &str, numbers_grounded: bool) -> (r: bool)
    ensures
        r == (summary_words_usable(summary@) && numbers_grounded),
{
    if blank(summary) {
        return false;
    }
    if summary_looks_truncated(summary) {
        return false;
    }
    let lower = to_lower(summary);
    let l = lower.as_str();
    if mentions(l, "[user]") || mentions(l, "[system]") || mentions(l, "```") || mentions(l, "| jq") || mentions(
        l,
        "the final answer is",
    ) {
        return false;
    }
    if contains_long_decimal(summary, 2) {
        return false;
    }
    numbers_grounded
}

// ---------------------------------------------------------------------------
// Explanations
// ---------------------------------------------------------------------------

/// A text without emphasis and code marks; doubled slashes go too, unless the
/// text holds an address.
pub open spec fn without_marks(s: Seq<char>) -> Seq<char> {
    let a = scan::replace(s, "```"@, " "@);
    let b = scan::replace(a, "**"@, ""@);
    let c = scan::replace(b, "__"@, ""@);
    let d = scan::replace(c, "`"@, ""@);
    if scan::contains(d, "://"@) {
        d
    } else {
        scan::replace(d, "//"@, ""@)
    }
}

/// Removes emphasis and code marks.
pub fn strip_inline_markdown_noise(text: &str) -> (r: String)
    ensures
        r@ == without_marks(text@),
{
    proof {
        reveal_strlit("```");
        reveal_strlit("**");
        reveal_strlit("__");
        reveal_strlit("`");
        reveal_strlit("//");
    }
    let a = replaced(text, "```", " ");
    let b = replaced(a.as_str(), "**", "");
    let c = replaced(b.as_str(), "__", "");
    let d = replaced(c.as_str(), "`", "");
    if mentions(d.as_str(), "://") {
        d
    } else {
        replaced(d.as_str(), "//", "")
    }
}

/// A line without marks and without the list mark before it.
pub open spec fn bullet_line(line: Seq<char>) -> Seq<char> {
    text::trim(
        text::skip_front(
            text::skip_front(text::trim(without_marks(line)), text::only('-')),
            text::only('*'),
        ),
    )
}

fn clean_bullet_line(line: &str) -> (r: String)
    ensures
        r@ == bullet_line(line@),
{
    let a = trimmed(strip_inline_markdown_noise(line).as_str());
    let b = trimmed_start_of(a.as_str(), '-');
    trimmed(trimmed_start_of(b.as_str(), '*').as_str())
}

/// A cleaned line that says something.
pub open spec fn is_statement(line: Seq<char>) -> bool {
    let lower = text::lower(line);
    &&& line.len() > 0
    &&& !scan::starts_with(lower, "question:"@)
    &&& !scan::starts_with(lower, "analysis context:"@)
    &&& !scan::starts_with(lower, "here is"@)
    &&& !scan::starts_with(lower, "summary:"@)
    &&& !scan::contains(lower, "```"@)
    &&& letter_count(line) >= 8
}

fn statement(line: &str) -> (r: bool)
    ensures
        r == is_statement(line@),
{
    if line.is_empty() {
        return false;
    }
    let lower = to_lower(line);
    let l = lower.as_str();
    if begins(l, "question:") || begins(l, "analysis context:") || begins(l, "here is") || begins(
        l,
        "summary:",
    ) || mentions(l, "```") {
        return false;
    }
    count_letters(line) >= 8
}

/// A text with single spaces between its words.
pub open spec fn single_spaced(s: Seq<char>) -> Seq<char> {
    scan::join(scan::words(s), " "@)
}

/// The statements in an answer, each once, in order, with single spaces.
pub open spec fn statements(raw: Seq<char>) -> Seq<Seq<char>> {
    list::distinct_by(
        list::keep(
            scan::lines(answer_body(raw)).map_values(|l: Seq<char>| bullet_line(l)),
            |l: Seq<char>| is_statement(l),
        ).map_values(|l: Seq<char>| single_spaced(l)),
        |l: Seq<char>| text::lower(l),
    )
}

/// A line as an item of a list.
pub open spec fn bullet(line: Seq<char>) -> Seq<char> {
    "- "@ + line
}

/// The number of items that a list may have.
pub open spec fn bullet_limit(max_bullets: usize) -> int {
    if max_bullets < 1 {
        1
    } else {
        max_bullets as int
    }
}

/// Turns a model's answer into a list of at most `max_bullets` distinct statements.
#[verifier::loop_isolation(false)]
pub fn sanitize_explain_analyze_answer(raw: &str, max_bullets: usize) -> (r: String)
    ensures
        r@ == scan::join(
            at_most(statements(raw@), bullet_limit(max_bullets)).map_values(
                |l: Seq<char>| bullet(l),
            ),
            "\n"@,
        ),
{
    let body = body_of(raw);
    let lines = lines_of(body.as_str());
    let ghost all = scan::lines(answer_body(raw@)).map_values(|l: Seq<char>| bullet_line(l));
    let ghost good = |l: Seq<char>| is_statement(l);
    let ghost flat = |l: Seq<char>| single_spaced(l);
    let ghost key = |l: Seq<char>| text::lower(l);
    let ghost mut kept: Seq<Seq<char>> = Seq::empty();
    let mut out: Vec<String> = Vec::new();
    let mut keys: Vec<String> = Vec::new();
    let mut i: usize = 0;
    assert(list::keep(all.take(0), good).map_values(flat) =~= Seq::empty());
    assert(kept =~= list::distinct_by(list::keep(all.take(0), good).map_values(flat), key));
    while i < lines.len()
        invariant
            i <= lines.len(),
            text::views(lines@) == scan::lines(answer_body(raw@)),
            keys.len() == out.len() == kept.len(),
            forall|j: int| 0 <= j < kept.len() ==> (#[trigger] keys@[j])@ == text::lower(kept[j]),
            forall|j: int| 0 <= j < kept.len() ==> (#[trigger] out@[j])@ == bullet(kept[j]),
            kept == list::distinct_by(
                list::keep(all.take(i as int), good).map_values(flat),
                key,
            ),
        decreases lines.len() - i,
    {
        let line = clean_bullet_line(lines[i].as_str());
        assert(text::views(lines@)[i as int] == lines@[i as int]@);
        assert(all.take(i + 1).drop_last() =~= all.take(i as int));
        if statement(line.as_str()) {
            let ghost passed = list::keep(all.take(i as int), good);
            assert(passed.push(line@).map_values(flat) =~= passed.map_values(flat).push(
                flat(line@),
            ));
            assert(passed.map_values(flat).push(flat(line@)).drop_last() =~= passed.map_values(
                flat,
            ));
            let words = words_of(line.as_str());
            let canonical = join_text(&words, " ");
            let k = to_lower(canonical.as_str());
            let seen = known(&keys, k.as_str());
            assert(seen == exists|j: int|
                0 <= j < kept.len() && key(#[trigger] kept[j]) == key(canonical@)) by {
                if seen {
                    let j = choose|j: int| 0 <= j < keys.len() && (#[trigger] keys@[j])@ == k@;
                    assert(key(kept[j]) == key(canonical@));
                }
                if exists|j: int| 0 <= j < kept.len() && key(#[trigger] kept[j]) == key(
                    canonical@,
                ) {
                    let j = choose|j: int|
                        0 <= j < kept.len() && key(#[trigger] kept[j]) == key(canonical@);
                    assert(keys@[j]@ == k@);
                }
            }
            if !seen {
                out.push(cat2("- ", canonical.as_str()));
                keys.push(k);
                proof {
                    kept = kept.push(canonical@);
                }
            }
        }
        i += 1;
    }
    assert(all.take(all.len() as int) =~= all);
    let limit: usize = if max_bullets < 1 {
        1
    } else {
        max_bullets
    };
    out.truncate(limit);
    assert(text::views(out@) =~= at_most(statements(raw@), bullet_limit(max_bullets)).map_values(
        |l: Seq<char>| bullet(l),
    ));
    join_text(&out, "\n")
}

/// Whether an explanation can be shown: it is not blank, has no number with
/// more than two decimals and cites evidence. `numbers_grounded` says whether
/// every number that it mentions is close to one that the evidence gives.
pub fn explain_analyze_answer_is_usable(answer: &str, numbers_grounded: bool) -> (r: bool)
    ensures
        r == (!text::is_blank(answer@) && !numeric::long_decimal_from(answer@, 2, 0)
            && scan::contains(answer@, "[E"@) && numbers_grounded),
{
    if blank(answer) {
        return false;
    }
    if contains_long_decimal(answer, 2) {
        return false;
    }
    if !mentions(answer, "[E") {
        return false;
    }
    numbers_grounded
}

/// One line of evidence as a list item with its citation.
pub open spec fn evidence_item(line: Seq<char>, number: int) -> Seq<char> {
    "- "@ + line + " [E"@ + digits::decimal(number as nat) + "]"@
}

/// The explanation that needs no model: the first lines of evidence, each cited.
pub open spec fn evidence_list(evidence: Seq<Seq<char>>, max_bullets: usize) -> Seq<char> {
    if evidence.len() == 0 {
        "- Unable to provide a grounded summary from the provided analysis context."@
    } else {
        let shown = at_most(evidence, bullet_limit(max_bullets));
        scan::join(
            Seq::new(shown.len(), |i: int| evidence_item(shown[i], i + 1)),
            "\n"@,
        )
    }
}

/// The explanation that needs no model.
pub fn deterministic_explain_analyze_from_evidence(
    _question: &str,
    evidence: &[String],
    max_bullets: usize,
) -> (r: String)
    ensures
        r@ == evidence_list(text::views(evidence@), max_bullets),
{
    if evidence.len() == 0 {
        return "- Unable to provide a grounded summary from the provided analysis context.".to_owned();
    }
    let limit: usize = if max_bullets < 1 {
        1
    } else {
        max_bullets
    };
    let n: usize = if evidence.len() < limit {
        evidence.len()
    } else {
        limit
    };
    let ghost shown = at_most(text::views(evidence@), bullet_limit(max_bullets));
    let mut out: Vec<String> = Vec::new();
    let mut i: usize = 0;
    while i < n
        invariant
            i <= n <= evidence.len(),
            out.len() == i,
            shown == text::views(evidence@).take(n as int),
            forall|j: int| 0 <= j < i ==> (#[trigger] out@[j])@ == evidence_item(shown[j], j + 1),
        decreases n - i,
    {
        let number = count_text(i + 1);
        out.push(cat5("- ", evidence[i].as_str(), " [E", number.as_str(), "]"));
        i += 1;
    }
    assert(text::views(out@) =~= Seq::new(
        shown.len(),
        |i: int| evidence_item(shown[i], i + 1),
    ));
    join_text(&out, "\n")
}

/// A summary keeps no more than four lines, and no two that say the same.
pub proof fn law_summaries_are_short_and_distinct(raw: Seq<char>, question: Seq<char>)
    ensures
        at_most(findings(raw, question), 4).len() <= 4,
        forall|i: int, j: int|
            0 <= i < j < at_most(findings(raw, question), 4).len() ==> finding_key(
                #[trigger] at_most(findings(raw, question), 4)[i],
            ) != finding_key(#[trigger] at_most(findings(raw, question), 4)[j]),
{
    let key = |l: Seq<char>| finding_key(l);
    let source = list::keep(
        scan::lines(answer_body(raw)).map_values(|l: Seq<char>| summary_line(l)),
        |l: Seq<char>| is_finding(l, question),
    );
    list::lemma_distinct_by(source, key);
    let all = findings(raw, question);
    let kept = at_most(all, 4);
    assert forall|i: int, j: int| 0 <= i < j < kept.len() implies finding_key(#[trigger] kept[i])
        != finding_key(#[trigger] kept[j]) by {
        assert(key(all[i]) != key(all[j]));
    }
}

/// An explanation has no more items than asked for, and no two that differ
/// only in the case of their letters.
pub proof fn law_explanations_are_short_and_distinct(raw: Seq<char>, max_bullets: usize)
    ensures
        at_most(statements(raw), bullet_limit(max_bullets)).len() <= bullet_limit(max_bullets),
        forall|i: int, j: int|
            0 <= i < j < at_most(statements(raw), bullet_limit(max_bullets)).len() ==> text::lower(
                #[trigger] at_most(statements(raw), bullet_limit(max_bullets))[i],
            ) != text::lower(#[trigger] at_most(statements(raw), bullet_limit(max_bullets))[j]),
{
    let key = |l: Seq<char>| text::lower(l);
    let source = list::keep(
        scan::lines(answer_body(raw)).map_values(|l: Seq<char>| bullet_line(l)),
        |l: Seq<char>| is_statement(l),
    ).map_values(|l: Seq<char>| single_spaced(l));
    list::lemma_distinct_by(source, key);
    let all = statements(raw);
    let kept = at_most(all, bullet_limit(max_bullets));
    assert forall|i: int, j: int| 0 <= i < j < kept.len() implies text::lower(#[trigger] kept[i])
        != text::lower(#[trigger] kept[j]) by {
        assert(key(all[i]) != key(all[j]));
    }
}

/// What an answer is taken from is the text behind the last mark of the
/// assistant, without the space around it; without a mark it is all of it.
pub proof fn law_answers_stand_behind_the_last_mark(before: Seq<char>, body: Seq<char>)
    requires
        !text::is_blank(body),
        !scan::contains(answer_mark().skip(1) + body, answer_mark()),
    ensures
        answer_body(before + answer_mark() + body) == text::trim(body),
        !scan::contains(before, answer_mark()) ==> answer_body(before) == text::trim(before),
{
    let mark = answer_mark();
    let raw = before + mark + body;
    let at = before.len() as int;
    reveal_strlit("assistant");
    assert(raw.subrange(at, at + mark.len()) =~= mark);
    assert(scan::occurs_at(raw, mark, at));
    match scan::find_last(raw, mark) {
        None => {
            scan::law_the_last_place_has_none_behind_it(raw, mark, at);
        },
        Some(k) => {
            scan::law_the_last_place_has_none_behind_it(raw, mark, at);
            if k > at {
                let rest = mark.skip(1) + body;
                assert(raw.skip(at + 1) =~= rest);
                assert(rest.subrange(k - at - 1, k - at - 1 + mark.len()) =~= raw.subrange(
                    k,
                    k + mark.len(),
                ));
                assert(scan::occurs_at(rest, mark, k - at - 1));
            }
        },
    }
    assert(raw.skip(at + mark.len()) =~= body);
    match scan::find_last(before, mark) {
        Some(k) => {
            scan::law_the_last_place_has_none_behind_it(before, mark, k);
        },
        None => {},
    }
}

/// A finding of a summary is a line of the answer, without its marks, that does
/// not repeat the question, has at least eight letters and is neither a command
/// nor an instruction; and no such line is lost, but for one that tells the same.
pub proof fn law_findings_are_telling_lines(raw: Seq<char>, question: Seq<char>)
    ensures
        ({
            let lines = scan::lines(answer_body(raw));
            let found = findings(raw, question);
            &&& forall|k: int|
                0 <= k < found.len() ==> ({
                    let f = #[trigger] found[k];
                    &&& is_line_of(f, lines)
                    &&& f.len() > 0
                    &&& !text::same_ignoring_case(f, text::trim(question))
                    &&& text::count_chars(f, |c: char| text::is_letter(c)) >= 8
                    &&& !scan::starts_with(f, "{"@)
                    &&& !is_command(text::lower(f)) && !is_instruction(text::lower(f))
                })
            &&& forall|i: int|
                0 <= i < lines.len() && is_finding(summary_line(#[trigger] lines[i]), question)
                    ==> tells_same(found, summary_line(lines[i]))
        }),
{
    let lines = scan::lines(answer_body(raw));
    let clean = lines.map_values(|l: Seq<char>| summary_line(l));
    let telling = |l: Seq<char>| is_finding(l, question);
    let key = |l: Seq<char>| finding_key(l);
    let kept = list::keep(clean, telling);
    let found = findings(raw, question);
    list::lemma_keep(clean, telling);
    list::lemma_distinct_by(kept, key);
    assert forall|k: int| 0 <= k < found.len() implies ({
        let f = #[trigger] found[k];
        is_finding(f, question) && is_line_of(f, lines)
    }) by {
        let f = found[k];
        assert(kept.contains(f));
        let m = choose|m: int| 0 <= m < kept.len() && kept[m] == f;
        assert(telling(kept[m]) && clean.contains(kept[m]));
        let i = choose|i: int| 0 <= i < clean.len() && clean[i] == kept[m];
        assert(summary_line(lines[i]) == f);
    }
    assert forall|i: int|
        0 <= i < lines.len() && is_finding(
            summary_line(#[trigger] lines[i]),
            question,
        ) implies tells_same(found, summary_line(lines[i])) by {
        assert(clean[i] == summary_line(lines[i]));
        assert(clean.contains(clean[i]) && telling(clean[i]));
        assert(kept.contains(clean[i]));
        let m = choose|m: int| 0 <= m < kept.len() && kept[m] == clean[i];
        let j = choose|j: int| 0 <= j < found.len() && key(#[trigger] found[j]) == key(kept[m]);
        assert(finding_key(found[j]) == finding_key(clean[i]));
    }
}

/// A finding is a line without its marks.
pub open spec fn is_line_of(f: Seq<char>, lines: Seq<Seq<char>>) -> bool {
    exists|i: int| 0 <= i < lines.len() && summary_line(#[trigger] lines[i]) == f
}

/// One of the findings tells the same as a line.
pub open spec fn tells_same(found: Seq<Seq<char>>, line: Seq<char>) -> bool {
    exists|j: int| 0 <= j < found.len() && finding_key(#[trigger] found[j]) == finding_key(line)
}

/// A statement of an explanation is a line of the answer, without its marks and
/// with single spaces, that has at least eight letters; and no such line is lost,
/// but for one that differs in case alone.
pub proof fn law_statements_are_telling_lines(raw: Seq<char>)
    ensures
        ({
            let lines = scan::lines(answer_body(raw));
            let said = statements(raw);
            &&& forall|k: int| 0 <= k < said.len() ==> is_said_in(#[trigger] said[k], lines)
            &&& forall|i: int|
                0 <= i < lines.len() && is_statement(bullet_line(#[trigger] lines[i]))
                    ==> exists|j: int|
                    0 <= j < said.len() && text::lower(#[trigger] said[j]) == text::lower(
                        single_spaced(bullet_line(lines[i])),
                    )
        }),
{
    let lines = scan::lines(answer_body(raw));
    let clean = lines.map_values(|l: Seq<char>| bullet_line(l));
    let telling = |l: Seq<char>| is_statement(l);
    let kept = list::keep(clean, telling);
    let spaced = kept.map_values(|l: Seq<char>| single_spaced(l));
    let key = |l: Seq<char>| text::lower(l);
    let said = statements(raw);
    list::lemma_keep(clean, telling);
    list::lemma_distinct_by(spaced, key);
    assert forall|k: int| 0 <= k < said.len() implies is_said_in(#[trigger] said[k], lines) by {
        assert(spaced.contains(said[k]));
        let m = choose|m: int| 0 <= m < spaced.len() && spaced[m] == said[k];
        assert(telling(kept[m]) && clean.contains(kept[m]));
        let i = choose|i: int| 0 <= i < clean.len() && clean[i] == kept[m];
        assert(bullet_line(lines[i]) == kept[m]);
    }
    assert forall|i: int|
        0 <= i < lines.len() && is_statement(
            bullet_line(#[trigger] lines[i]),
        ) implies exists|j: int|
        0 <= j < said.len() && text::lower(#[trigger] said[j]) == text::lower(
            single_spaced(bullet_line(lines[i])),
        ) by {
        assert(clean[i] == bullet_line(lines[i]));
        assert(clean.contains(clean[i]) && telling(clean[i]));
        assert(kept.contains(clean[i]));
        let m = choose|m: int| 0 <= m < kept.len() && kept[m] == clean[i];
        assert(spaced[m] == single_spaced(clean[i]));
        let j = choose|j: int| 0 <= j < said.len() && key(#[trigger] said[j]) == key(spaced[m]);
        assert(text::lower(said[j]) == text::lower(single_spaced(bullet_line(lines[i]))));
    }
}

/// A statement says what a line of the answer says.
pub open spec fn is_said_in(said: Seq<char>, lines: Seq<Seq<char>>) -> bool {
    exists|i: int|
        0 <= i < lines.len() && single_spaced(bullet_line(#[trigger] lines[i])) == said
            && bullet_line(lines[i]).len() > 0 && text::count_chars(
            bullet_line(lines[i]),
            |c: char| text::is_letter(c),
        ) >= 8
}

/// Of a list at most the given number is taken, from the front.
pub proof fn law_at_most_takes_the_front<T>(s: Seq<T>, n: int)
    requires
        0 <= n,
    ensures
        at_most(s, n).len() <= n,
        at_most(s, n).is_prefix_of(s),
        s.len() <= n ==> at_most(s, n) == s,
        s.len() > n ==> at_most(s, n).len() == n,
{
    if s.len() <= n {
        assert(at_most(s, n) =~= s);
    }
}

/// A summary is usable only where it says something, ends as a sentence does,
/// holds no decimal of more than two places and shows neither code nor a role.
pub proof fn law_usable_summaries_are_plain(summary: Seq<char>)
    requires
        summary_words_usable(summary),
    ensures
        !text::is_blank(summary),
        !looks_truncated(summary),
        !scan::contains(text::lower(summary), "```"@),
        !scan::contains(text::lower(summary), "[user]"@),
        !numeric::long_decimal_from(summary, 2, 0),
{
}

proof fn lemma_last_filled(lines: Seq<Seq<char>>, k: int)
    requires
        0 <= k < lines.len(),
        !text::is_blank(lines[k]),
        forall|i: int| k < i < lines.len() ==> text::is_blank(#[trigger] lines[i]),
    ensures
        last_filled(lines) == Some(lines[k]),
    decreases lines.len(),
{
    if k < lines.len() - 1 {
        assert(text::is_blank(lines[lines.len() - 1]));
        let front = lines.drop_last();
        assert forall|i: int| k < i < front.len() implies text::is_blank(#[trigger] front[i]) by {
            assert(front[i] == lines[i]);
        }
        lemma_last_filled(front, k);
    }
}

/// A summary looks cut off exactly where its last filled line ends, but for bars,
/// in a letter or digit and has at least ten letters, or holds nothing but bars.
pub proof fn law_cut_off_summaries_end_in_a_word(summary: Seq<char>, k: int)
    requires
        ({
            let lines = scan::lines(text::trim(summary));
            &&& 0 <= k < lines.len() && !text::is_blank(lines[k])
            &&& forall|i: int| k < i < lines.len() ==> text::is_blank(#[trigger] lines[i])
        }),
    ensures
        ({
            let tail = line_tail(scan::lines(text::trim(summary))[k]);
            &&& tail.len() == 0 ==> looks_truncated(summary)
            &&& tail.len() > 0 ==> (looks_truncated(summary) <==> (text::is_letter(
                tail[tail.len() - 1],
            ) || text::is_digit(tail[tail.len() - 1])) && text::count_chars(
                tail,
                |c: char| text::is_letter(c),
            ) >= 10)
        }),
{
    lemma_last_filled(scan::lines(text::trim(summary)), k);
}

} // verus!
