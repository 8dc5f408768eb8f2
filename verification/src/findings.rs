//! The written report of an investigation. Figures come in as texts.

use vstd::prelude::*;

use crate::args;
use crate::args::{investigation_mode_label, InvestigationMode};
use crate::branches;
use crate::branches::InvestigationBranchSummaryRow;
use crate::digits;
use crate::digits::count_text;
use crate::investigation::{
    copy_mover, InvestigationMajorChange, InvestigationMover, InvestigationStep,
    InvestigationTraceStep,
};
use crate::order;
use crate::order::{sort_by, text_before};
use crate::report;
use crate::report::{lesser, say, write_page};
use crate::scan;
use crate::scan::{join_text, replaced_char};
use crate::scope;
use crate::scope::format_scope;
use crate::text;
use crate::text::{cat2, cat3, cat4, cat5};

verus! {

// ---------------------------------------------------------------------------
// What a report is written from
// ---------------------------------------------------------------------------

/// A share before and after, and the difference.
#[derive(Clone, Debug)]
pub struct ShareTexts {
    pub base: String,
    pub new: String,
    pub delta: String,
}

/// The share of the metric that a segment has, and its share of the records.
#[derive(Clone, Debug)]
pub struct ShareLine {
    pub base: String,
    pub new: String,
    pub delta: String,
    pub records: String,
}

/// The share of the records that a segment has, and its change of the metric.
#[derive(Clone, Debug)]
pub struct MoverLine {
    pub base: String,
    pub new: String,
    pub delta: String,
    pub metric: String,
}

/// The figures of the strongest change along a dimension.
#[derive(Clone, Debug)]
pub struct ChangeLine {
    pub metric: String,
    pub share: String,
}

/// The figures of the first step. `largest` holds those of the segments with
/// the largest new values, `movers` those of the strongest movers.
#[derive(Clone, Debug)]
pub struct TopTexts {
    pub base_total: String,
    pub new_total: String,
    pub delta_total: String,
    pub strongest_delta: String,
    pub strongest_share: String,
    pub top1: ShareTexts,
    pub top5: ShareTexts,
    pub metric_top1: ShareTexts,
    pub metric_top5: ShareTexts,
    pub largest: Vec<ShareLine>,
    pub movers: Vec<MoverLine>,
}

/// The figures of the strongest mover of a step.
#[derive(Clone, Debug)]
pub struct StepTexts {
    pub delta: String,
    pub signed_delta: String,
    pub share: String,
    pub explained: String,
    pub residual: String,
}

/// The figures of a branch.
#[derive(Clone, Debug)]
pub struct BranchTexts {
    pub root_score: String,
    pub delta: String,
}

/// What a report says beside its steps.
#[derive(Clone, Debug)]
pub struct PageTexts {
    pub question: String,
    pub mode: InvestigationMode,
    pub base: String,
    pub new: String,
    pub top: TopTexts,
    pub changes: Vec<ChangeLine>,
    pub total_delta: String,
    pub total_delta_abs: String,
    pub strongest_explained: String,
    pub stop_reason: String,
    pub next_question: String,
}

/// A text as a table cell: bars are escaped, line breaks become spaces.
pub open spec fn cell_text(s: Seq<char>) -> Seq<char> {
    scan::replace_char(scan::replace_char(s, '|', "\\|"@), '\n', " "@)
}

/// A text as a table cell.
pub fn table_cell(s: &str) -> (r: String)
    ensures
        r@ == cell_text(s@),
{
    replaced_char(replaced_char(s, '|', "\\|").as_str(), '\n', " ")
}

/// The segment has the larger new value, or as large a one and comes first by name.
pub open spec fn is_larger(a: InvestigationMover, b: InvestigationMover) -> bool {
    b.new_primary_metric_value.lt(a.new_primary_metric_value)
        || (!a.new_primary_metric_value.lt(b.new_primary_metric_value) && order::text_less(
        a.segment@,
        b.segment@,
    ))
}

pub open spec fn larger_first() -> spec_fn(InvestigationMover, InvestigationMover) -> bool {
    |a: InvestigationMover, b: InvestigationMover| is_larger(a, b)
}

fn precedes_by_size(a: &InvestigationMover, b: &InvestigationMover) -> (r: bool)
    ensures
        r == is_larger(*a, *b),
{
    b.new_primary_metric_value.less(a.new_primary_metric_value)
        || (!a.new_primary_metric_value.less(b.new_primary_metric_value) && text_before(
        a.segment.as_str(),
        b.segment.as_str(),
    ))
}

/// The movers of a step, those with the largest new values first.
pub fn largest_movers(movers: &Vec<InvestigationMover>) -> (r: Vec<InvestigationMover>)
    ensures
        r@ == order::sorted(movers@, larger_first()),
        r@.len() == movers@.len(),
{
    let mut copy: Vec<InvestigationMover> = Vec::new();
    let mut i: usize = 0;
    while i < movers.len()
        invariant
            i <= movers.len(),
            copy@ == movers@.take(i as int),
        decreases movers.len() - i,
    {
        copy.push(copy_mover(&movers[i]));
        assert(copy@ =~= movers@.take(i + 1));
        i += 1;
    }
    assert(copy@ =~= movers@);
    proof {
        order::lemma_sorted_permutation(movers@, larger_first());
    }
    let precedes = |a: &InvestigationMover, b: &InvestigationMover| -> (x: bool)
        ensures
            x == is_larger(*a, *b),
        { precedes_by_size(a, b) };
    sort_by(copy, precedes, Ghost(larger_first()))
}

/// There are figures for the five largest segments of a step and for its five
/// strongest movers.
pub open spec fn has_top_figures(t: TopTexts, s: InvestigationStep) -> bool {
    let n = report::least(s.movers@.len() as int, 5);
    t.largest@.len() >= n && t.movers@.len() >= n
}

/// The first step has a strongest segment with a name.
pub open spec fn strongest_named(steps: Seq<InvestigationStep>) -> bool {
    steps.len() > 0 && steps[0].movers@.len() > 0 && steps[0].movers@[0].segment@.len() > 0
}

fn names_strongest(steps: &Vec<InvestigationStep>) -> (r: bool)
    ensures
        r == strongest_named(steps@),
{
    steps.len() > 0 && steps[0].movers.len() > 0 && !steps[0].movers[0].segment.as_str().is_empty()
}

/// Some step has movers.
pub open spec fn some_movers(steps: Seq<InvestigationStep>) -> bool {
    exists|i: int| 0 <= i < steps.len() && (#[trigger] steps[i]).movers@.len() > 0
}

fn has_any_movers(steps: &Vec<InvestigationStep>) -> (r: bool)
    ensures
        r == some_movers(steps@),
{
    let mut i: usize = 0;
    while i < steps.len()
        invariant
            i <= steps.len(),
            forall|k: int| 0 <= k < i ==> (#[trigger] steps@[k]).movers@.len() == 0,
        decreases steps.len() - i,
    {
        if steps[i].movers.len() > 0 {
            return true;
        }
        i += 1;
    }
    false
}

// ---------------------------------------------------------------------------
// Sections
// ---------------------------------------------------------------------------

/// A row for each of the five largest segments.
pub open spec fn write_shares_lines(out: Seq<Seq<char>>, movers: Seq<InvestigationMover>, items: Seq<ShareLine>, n: int) -> Seq<Seq<char>>
    decreases n,
{
    if n <= 0 {
        out
    } else {
        let out = write_shares_lines(out, movers, items, n - 1);
        let x = items[n - 1];
        let out = out.push("| "@ + digits::decimal(n as nat) + " | "@ + cell_text(movers[n - 1].segment@) + " | "@ + x.base@ + "% | "@ + x.new@ + "% | "@ + x.delta@ + " pp | "@ + x.records@ + "% |"@);
        out
    }
}

/// A row for each of the five largest segments.
#[verifier::loop_isolation(false)]
pub fn write_shares(out: &mut Vec<String>, movers: &Vec<InvestigationMover>, items: &Vec<ShareLine>)
    requires
        items.len() >= report::least(movers@.len() as int, 5),
    ensures
        text::views(final(out)@) == write_shares_lines(text::views(old(out)@), movers@, items@, report::least(movers@.len() as int, 5)),
{
    let count: usize = lesser(movers.len(), 5usize);
    let mut i: usize = 0;
    while i < count
        invariant
            i <= count,
            text::views(out@) == write_shares_lines(text::views(old(out)@), movers@, items@, i as int),
        decreases count - i,
    {
        let x = &items[i];
        let mut line = cat5("| ", count_text(i + 1).as_str(), " | ", table_cell(movers[i].segment.as_str()).as_str(), " | ");
        line.append(x.base.as_str());
        line.append("% | ");
        line.append(x.new.as_str());
        line.append("% | ");
        line.append(x.delta.as_str());
        line.append(" pp | ");
        line.append(x.records.as_str());
        line.append("% |");
        say(out, line);
        i += 1;
    }
}

/// A row for each of the five strongest movers.
pub open spec fn write_movers_lines(out: Seq<Seq<char>>, movers: Seq<InvestigationMover>, items: Seq<MoverLine>, n: int) -> Seq<Seq<char>>
    decreases n,
{
    if n <= 0 {
        out
    } else {
        let out = write_movers_lines(out, movers, items, n - 1);
        let x = items[n - 1];
        let out = out.push("| "@ + digits::decimal(n as nat) + " | "@ + cell_text(movers[n - 1].segment@) + " | "@ + x.base@ + "% | "@ + x.new@ + "% | "@ + x.delta@ + " pp | "@ + x.metric@ + " |"@);
        out
    }
}

/// A row for each of the five strongest movers.
#[verifier::loop_isolation(false)]
pub fn write_movers(out: &mut Vec<String>, movers: &Vec<InvestigationMover>, items: &Vec<MoverLine>)
    requires
        items.len() >= report::least(movers@.len() as int, 5),
    ensures
        text::views(final(out)@) == write_movers_lines(text::views(old(out)@), movers@, items@, report::least(movers@.len() as int, 5)),
{
    let count: usize = lesser(movers.len(), 5usize);
    let mut i: usize = 0;
    while i < count
        invariant
            i <= count,
            text::views(out@) == write_movers_lines(text::views(old(out)@), movers@, items@, i as int),
        decreases count - i,
    {
        let x = &items[i];
        let mut line = cat5("| ", count_text(i + 1).as_str(), " | ", table_cell(movers[i].segment.as_str()).as_str(), " | ");
        line.append(x.base.as_str());
        line.append("% | ");
        line.append(x.new.as_str());
        line.append("% | ");
        line.append(x.delta.as_str());
        line.append(" pp | ");
        line.append(x.metric.as_str());
        line.append(" |");
        say(out, line);
        i += 1;
    }
}

/// A row for each dimension.
pub open spec fn write_changes_lines(out: Seq<Seq<char>>, changes: Seq<InvestigationMajorChange>, items: Seq<ChangeLine>, n: int) -> Seq<Seq<char>>
    decreases n,
{
    if n <= 0 {
        out
    } else {
        let out = write_changes_lines(out, changes, items, n - 1);
        let x = items[n - 1];
        let out = out.push("| "@ + digits::decimal(n as nat) + " | "@ + cell_text(changes[n - 1].dimension@) + " | "@ + cell_text(changes[n - 1].segment@) + " | "@ + x.metric@ + " | "@ + x.share@ + " pp |"@);
        out
    }
}

/// A row for each dimension.
#[verifier::loop_isolation(false)]
pub fn write_changes(out: &mut Vec<String>, changes: &Vec<InvestigationMajorChange>, items: &Vec<ChangeLine>)
    requires
        items.len() == changes.len(),
    ensures
        text::views(final(out)@) == write_changes_lines(text::views(old(out)@), changes@, items@, changes@.len() as int),
{
    let mut i: usize = 0;
    while i < changes.len()
        invariant
            i <= changes.len(),
            text::views(out@) == write_changes_lines(text::views(old(out)@), changes@, items@, i as int),
        decreases changes.len() - i,
    {
        let x = &items[i];
        let mut line = cat5("| ", count_text(i + 1).as_str(), " | ", table_cell(changes[i].dimension.as_str()).as_str(), " | ");
        line.append(table_cell(changes[i].segment.as_str()).as_str());
        line.append(" | ");
        line.append(x.metric.as_str());
        line.append(" | ");
        line.append(x.share.as_str());
        line.append(" pp |");
        say(out, line);
        i += 1;
    }
}

/// The names and shares of the five largest segments.
pub open spec fn add_share_names_lines(out: Seq<Seq<char>>, movers: Seq<InvestigationMover>, items: Seq<ShareLine>, n: int) -> Seq<Seq<char>>
    decreases n,
{
    if n <= 0 {
        out
    } else {
        let out = add_share_names_lines(out, movers, items, n - 1);
        let x = items[n - 1];
        let out = out.push(movers[n - 1].segment@ + " ("@ + x.new@ + "% metric share)"@);
        out
    }
}

/// The names and shares of the five largest segments.
#[verifier::loop_isolation(false)]
pub fn add_share_names(out: &mut Vec<String>, movers: &Vec<InvestigationMover>, items: &Vec<ShareLine>)
    requires
        items.len() >= report::least(movers@.len() as int, 5),
    ensures
        text::views(final(out)@) == add_share_names_lines(text::views(old(out)@), movers@, items@, report::least(movers@.len() as int, 5)),
{
    let count: usize = lesser(movers.len(), 5usize);
    let mut i: usize = 0;
    while i < count
        invariant
            i <= count,
            text::views(out@) == add_share_names_lines(text::views(old(out)@), movers@, items@, i as int),
        decreases count - i,
    {
        let x = &items[i];
        say(out, cat4(movers[i].segment.as_str(), " (", x.new.as_str(), "% metric share)"));
        i += 1;
    }
}

/// What the whole data shows.
pub open spec fn write_top_finding_lines(out: Seq<Seq<char>>, s: InvestigationStep, t: TopTexts) -> Seq<Seq<char>> {
    let out = out.push("## Top-level finding"@);
    let out = out.push(""@);
    let out = if s.movers@.len() == s.segment_count {
        let out = out.push("- Between compared periods, total `"@ + s.primary_metric@ + "` changed from "@ + t.base_total@ + " to "@ + t.new_total@ + " (delta = "@ + t.delta_total@ + ")."@);
        out
    } else {
        let out = out.push("- Across reported movers only ("@ + digits::decimal(s.movers.len() as nat) + " of "@ + digits::decimal(s.segment_count as nat) + " segments), subtotal `"@ + s.primary_metric@ + "` changed from "@ + t.base_total@ + " to "@ + t.new_total@ + " (delta = "@ + t.delta_total@ + "); increase `--top-movers` for full-period total."@);
        out
    };
    let out = if s.movers@.len() > 0 {
        let out = out.push("- On `"@ + s.dimension@ + "` the strongest mover is `"@ + s.movers@[0].segment@ + "` (delta "@ + s.primary_metric@ + " = "@ + t.strongest_delta@ + ", delta share = "@ + t.strongest_share@ + " pp)."@);
        out
    } else {
        let out = out.push("- No movers were available at top level."@);
        out
    };
    let out = if s.segment_count <= 5 {
        let out = out.push("- Top-5 record-share concentration is saturated at 100.00% because only "@ + digits::decimal(s.segment_count as nat) + " segments exist; top-1 record-share concentration moved from "@ + t.top1.base@ + "% to "@ + t.top1.new@ + "% ("@ + t.top1.delta@ + " pp)."@);
        out
    } else {
        let out = out.push("- Top-5 metric-share concentration moved from "@ + t.metric_top5.base@ + "% to "@ + t.metric_top5.new@ + "% ("@ + t.metric_top5.delta@ + " pp)."@);
        out
    };
    let out = out.push("- Concentration tables include both metric-share (`primary metric`) and record-share (`rows`) for this grouping dimension."@);
    let out = out.push(""@);
    let out = out.push("### Concentration snapshot"@);
    let out = out.push(""@);
    let out = out.push("| Measure | Base | New | Delta |"@);
    let out = out.push("|---|---:|---:|---:|"@);
    let out = out.push("| Top-1 concentration (metric-share) | "@ + t.metric_top1.base@ + "% | "@ + t.metric_top1.new@ + "% | "@ + t.metric_top1.delta@ + " pp |"@);
    let out = out.push("| Top-5 concentration (metric-share) | "@ + t.metric_top5.base@ + "% | "@ + t.metric_top5.new@ + "% | "@ + t.metric_top5.delta@ + " pp |"@);
    let out = out.push("| Top-1 concentration (record-share) | "@ + t.top1.base@ + "% | "@ + t.top1.new@ + "% | "@ + t.top1.delta@ + " pp |"@);
    let out = out.push("| Top-5 concentration (record-share) | "@ + t.top5.base@ + "% | "@ + t.top5.new@ + "% | "@ + t.top5.delta@ + " pp |"@);
    let out = out.push(""@);
    out
}

/// What the whole data shows.
pub fn write_top_finding(out: &mut Vec<String>, s: &InvestigationStep, t: &TopTexts)
    ensures
        text::views(final(out)@) == write_top_finding_lines(text::views(old(out)@), *s, *t),
{
    say(out, "## Top-level finding".to_owned());
    say(out, "".to_owned());
    if s.movers.len() == s.segment_count {
        let mut line = cat5("- Between compared periods, total `", s.primary_metric.as_str(), "` changed from ", t.base_total.as_str(), " to ");
        line.append(t.new_total.as_str());
        line.append(" (delta = ");
        line.append(t.delta_total.as_str());
        line.append(").");
        say(out, line);
    } else {
        let mut line = cat5("- Across reported movers only (", count_text(s.movers.len()).as_str(), " of ", count_text(s.segment_count).as_str(), " segments), subtotal `");
        line.append(s.primary_metric.as_str());
        line.append("` changed from ");
        line.append(t.base_total.as_str());
        line.append(" to ");
        line.append(t.new_total.as_str());
        line.append(" (delta = ");
        line.append(t.delta_total.as_str());
        line.append("); increase `--top-movers` for full-period total.");
        say(out, line);
    }
    if s.movers.len() > 0 {
        let mut line = cat5("- On `", s.dimension.as_str(), "` the strongest mover is `", s.movers[0].segment.as_str(), "` (delta ");
        line.append(s.primary_metric.as_str());
        line.append(" = ");
        line.append(t.strongest_delta.as_str());
        line.append(", delta share = ");
        line.append(t.strongest_share.as_str());
        line.append(" pp).");
        say(out, line);
    } else {
        say(out, "- No movers were available at top level.".to_owned());
    }
    if s.segment_count <= 5 {
        let mut line = cat5("- Top-5 record-share concentration is saturated at 100.00% because only ", count_text(s.segment_count).as_str(), " segments exist; top-1 record-share concentration moved from ", t.top1.base.as_str(), "% to ");
        line.append(t.top1.new.as_str());
        line.append("% (");
        line.append(t.top1.delta.as_str());
        line.append(" pp).");
        say(out, line);
    } else {
        let mut line = cat5("- Top-5 metric-share concentration moved from ", t.metric_top5.base.as_str(), "% to ", t.metric_top5.new.as_str(), "% (");
        line.append(t.metric_top5.delta.as_str());
        line.append(" pp).");
        say(out, line);
    }
    say(out, "- Concentration tables include both metric-share (`primary metric`) and record-share (`rows`) for this grouping dimension.".to_owned());
    say(out, "".to_owned());
    say(out, "### Concentration snapshot".to_owned());
    say(out, "".to_owned());
    say(out, "| Measure | Base | New | Delta |".to_owned());
    say(out, "|---|---:|---:|---:|".to_owned());
    let mut line = cat5("| Top-1 concentration (metric-share) | ", t.metric_top1.base.as_str(), "% | ", t.metric_top1.new.as_str(), "% | ");
    line.append(t.metric_top1.delta.as_str());
    line.append(" pp |");
    say(out, line);
    let mut line = cat5("| Top-5 concentration (metric-share) | ", t.metric_top5.base.as_str(), "% | ", t.metric_top5.new.as_str(), "% | ");
    line.append(t.metric_top5.delta.as_str());
    line.append(" pp |");
    say(out, line);
    let mut line = cat5("| Top-1 concentration (record-share) | ", t.top1.base.as_str(), "% | ", t.top1.new.as_str(), "% | ");
    line.append(t.top1.delta.as_str());
    line.append(" pp |");
    say(out, line);
    let mut line = cat5("| Top-5 concentration (record-share) | ", t.top5.base.as_str(), "% | ", t.top5.new.as_str(), "% | ");
    line.append(t.top5.delta.as_str());
    line.append(" pp |");
    say(out, line);
    say(out, "".to_owned());
}

/// The largest segments and the strongest movers of the whole data.
pub open spec fn write_top_tables_lines(out: Seq<Seq<char>>, s: InvestigationStep, t: TopTexts) -> Seq<Seq<char>> {
    let n = report::least(s.movers@.len() as int, 5);
    let largest = order::sorted(s.movers@, larger_first());
    let listed = scan::join(add_share_names_lines(Seq::empty(), largest, t.largest@, n), ", "@);
    let out = if listed.len() == 0 {
        let out = out.push("- Largest new-period segments by metric share: (none)."@);
        out
    } else {
        let out = out.push("- Largest new-period segments by metric share: "@ + listed + "."@);
        out
    };
    let out = out.push(""@);
    let out = out.push("### Segments behind concentration (largest by metric share)"@);
    let out = out.push(""@);
    let out = out.push("| # | Segment | Base metric share | New metric share | Delta metric share | New record share |"@);
    let out = out.push("|---:|---|---:|---:|---:|---:|"@);
    let out = write_shares_lines(out, largest, t.largest@, n);
    let out = if s.segment_count > s.movers@.len() {
        let out = out.push(""@);
        let out = out.push("_Note: concentration table is derived from reported movers only ("@ + digits::decimal(s.movers.len() as nat) + " of "@ + digits::decimal(s.segment_count as nat) + " segments in this scope; tune `--top-movers` to expand)._"@);
        out
    } else {
        out
    };
    let out = out.push(""@);
    let out = out.push("### Top-level movers (top 5)"@);
    let out = out.push(""@);
    let out = out.push("| # | Segment | Base share | New share | Delta share | Delta metric |"@);
    let out = out.push("|---:|---|---:|---:|---:|---:|"@);
    let out = write_movers_lines(out, s.movers@, t.movers@, n);
    let out = if s.segment_count > s.movers@.len() {
        let out = out.push(""@);
        let out = out.push("_Note: showing "@ + digits::decimal(s.movers.len() as nat) + " movers ("@ + digits::decimal(s.segment_count as nat) + " total segments in this scope; tune `--top-movers` to expand)._"@);
        out
    } else {
        out
    };
    let out = out.push(""@);
    out
}

/// The largest segments and the strongest movers of the whole data.
pub fn write_top_tables(out: &mut Vec<String>, s: &InvestigationStep, t: &TopTexts)
    requires
        has_top_figures(*t, *s),
    ensures
        text::views(final(out)@) == write_top_tables_lines(text::views(old(out)@), *s, *t),
{
    let largest = largest_movers(&s.movers);
    let mut names: Vec<String> = Vec::new();
    proof {
        assert(text::views(names@) =~= Seq::empty());
    }
    add_share_names(&mut names, &largest, &t.largest);
    let listed = join_text(&names, ", ");
    if listed.as_str().is_empty() {
        say(out, "- Largest new-period segments by metric share: (none).".to_owned());
    } else {
        say(out, cat3("- Largest new-period segments by metric share: ", listed.as_str(), "."));
    }
    say(out, "".to_owned());
    say(out, "### Segments behind concentration (largest by metric share)".to_owned());
    say(out, "".to_owned());
    say(out, "| # | Segment | Base metric share | New metric share | Delta metric share | New record share |".to_owned());
    say(out, "|---:|---|---:|---:|---:|---:|".to_owned());
    write_shares(out, &largest, &t.largest);
    if s.segment_count > s.movers.len() {
        say(out, "".to_owned());
        say(out, cat5("_Note: concentration table is derived from reported movers only (", count_text(s.movers.len()).as_str(), " of ", count_text(s.segment_count).as_str(), " segments in this scope; tune `--top-movers` to expand)._"));
    }
    say(out, "".to_owned());
    say(out, "### Top-level movers (top 5)".to_owned());
    say(out, "".to_owned());
    say(out, "| # | Segment | Base share | New share | Delta share | Delta metric |".to_owned());
    say(out, "|---:|---|---:|---:|---:|---:|".to_owned());
    write_movers(out, &s.movers, &t.movers);
    if s.segment_count > s.movers.len() {
        say(out, "".to_owned());
        say(out, cat5("_Note: showing ", count_text(s.movers.len()).as_str(), " movers (", count_text(s.segment_count).as_str(), " total segments in this scope; tune `--top-movers` to expand)._"));
    }
    say(out, "".to_owned());
}

/// A line for each step below the top that has movers.
pub open spec fn write_follow_ups_lines(out: Seq<Seq<char>>, steps: Seq<InvestigationStep>, texts: Seq<StepTexts>, n: int) -> Seq<Seq<char>>
    decreases n,
{
    if n <= 0 {
        out
    } else {
        let out = write_follow_ups_lines(out, steps, texts, n - 1);
        let x = steps[n - 1];
        let t = texts[n - 1];
        let out = if n > 1 && x.movers@.len() > 0 {
            let out = if x.scope@.len() == 0 {
                let out = out.push("- Global follow-up grouped by `"@ + x.dimension@ + "`: strongest mover `"@ + x.movers@[0].segment@ + "` (delta "@ + x.primary_metric@ + " = "@ + t.delta@ + ", delta share = "@ + t.share@ + " pp)."@);
                out
            } else {
                let out = out.push("- Depth "@ + digits::decimal(x.depth as nat) + " scope ["@ + scope::scope_text(scope::bindings(x.scope@)) + "] grouped by `"@ + x.dimension@ + "`: strongest mover `"@ + x.movers@[0].segment@ + "` (delta "@ + x.primary_metric@ + " = "@ + t.delta@ + ", delta share = "@ + t.share@ + " pp)."@);
                out
            };
            out
        } else {
            out
        };
        out
    }
}

/// A line for each step below the top that has movers.
#[verifier::loop_isolation(false)]
pub fn write_follow_ups(out: &mut Vec<String>, steps: &Vec<InvestigationStep>, texts: &Vec<StepTexts>)
    requires
        texts.len() == steps.len(),
    ensures
        text::views(final(out)@) == write_follow_ups_lines(text::views(old(out)@), steps@, texts@, steps@.len() as int),
{
    let mut i: usize = 0;
    while i < steps.len()
        invariant
            i <= steps.len(),
            text::views(out@) == write_follow_ups_lines(text::views(old(out)@), steps@, texts@, i as int),
        decreases steps.len() - i,
    {
        let x = &steps[i];
        let t = &texts[i];
        if i > 0 && x.movers.len() > 0 {
            if x.scope.len() == 0 {
                let mut line = cat5("- Global follow-up grouped by `", x.dimension.as_str(), "`: strongest mover `", x.movers[0].segment.as_str(), "` (delta ");
                line.append(x.primary_metric.as_str());
                line.append(" = ");
                line.append(t.delta.as_str());
                line.append(", delta share = ");
                line.append(t.share.as_str());
                line.append(" pp).");
                say(out, line);
            } else {
                let mut line = cat5("- Depth ", count_text(x.depth).as_str(), " scope [", format_scope(x.scope.as_slice()).as_str(), "] grouped by `");
                line.append(x.dimension.as_str());
                line.append("`: strongest mover `");
                line.append(x.movers[0].segment.as_str());
                line.append("` (delta ");
                line.append(x.primary_metric.as_str());
                line.append(" = ");
                line.append(t.delta.as_str());
                line.append(", delta share = ");
                line.append(t.share.as_str());
                line.append(" pp).");
                say(out, line);
            }
        }
        i += 1;
    }
}

/// A row for each step below the top that has movers.
pub open spec fn write_follow_up_rows_lines(out: Seq<Seq<char>>, steps: Seq<InvestigationStep>, texts: Seq<StepTexts>, n: int) -> Seq<Seq<char>>
    decreases n,
{
    if n <= 0 {
        out
    } else {
        let out = write_follow_up_rows_lines(out, steps, texts, n - 1);
        let x = steps[n - 1];
        let t = texts[n - 1];
        let out = if n > 1 && x.movers@.len() > 0 {
            let out = out.push("| "@ + digits::decimal(x.depth as nat) + " | "@ + cell_text(scope::scope_text(scope::bindings(x.scope@))) + " | "@ + cell_text(x.dimension@) + " | "@ + cell_text(x.movers@[0].segment@) + " | "@ + t.signed_delta@ + " | "@ + t.share@ + " pp |"@);
            out
        } else {
            out
        };
        out
    }
}

/// A row for each step below the top that has movers.
#[verifier::loop_isolation(false)]
pub fn write_follow_up_rows(out: &mut Vec<String>, steps: &Vec<InvestigationStep>, texts: &Vec<StepTexts>)
    requires
        texts.len() == steps.len(),
    ensures
        text::views(final(out)@) == write_follow_up_rows_lines(text::views(old(out)@), steps@, texts@, steps@.len() as int),
{
    let mut i: usize = 0;
    while i < steps.len()
        invariant
            i <= steps.len(),
            text::views(out@) == write_follow_up_rows_lines(text::views(old(out)@), steps@, texts@, i as int),
        decreases steps.len() - i,
    {
        let x = &steps[i];
        let t = &texts[i];
        if i > 0 && x.movers.len() > 0 {
            let mut line = cat5("| ", count_text(x.depth).as_str(), " | ", table_cell(format_scope(x.scope.as_slice()).as_str()).as_str(), " | ");
            line.append(table_cell(x.dimension.as_str()).as_str());
            line.append(" | ");
            line.append(table_cell(x.movers[0].segment.as_str()).as_str());
            line.append(" | ");
            line.append(t.signed_delta.as_str());
            line.append(" | ");
            line.append(t.share.as_str());
            line.append(" pp |");
            say(out, line);
        }
        i += 1;
    }
}

/// A row for each branch.
pub open spec fn write_branches_lines(out: Seq<Seq<char>>, rows: Seq<InvestigationBranchSummaryRow>, scores: Seq<BranchTexts>, n: int) -> Seq<Seq<char>>
    decreases n,
{
    if n <= 0 {
        out
    } else {
        let out = write_branches_lines(out, rows, scores, n - 1);
        let x = rows[n - 1];
        let t = scores[n - 1];
        let out = out.push("| "@ + digits::decimal(n as nat) + " | "@ + cell_text(x.root_dimension@) + "="@ + cell_text(x.root_segment@) + " | "@ + t.root_score@ + " | depth "@ + digits::decimal(x.deepest_depth as nat) + " / "@ + cell_text(x.deepest_dimension@) + " | "@ + cell_text(x.deepest_segment@) + " | "@ + t.delta@ + " |"@);
        out
    }
}

/// A row for each branch.
#[verifier::loop_isolation(false)]
pub fn write_branches(out: &mut Vec<String>, rows: &Vec<InvestigationBranchSummaryRow>, scores: &Vec<BranchTexts>)
    requires
        scores.len() == rows.len(),
    ensures
        text::views(final(out)@) == write_branches_lines(text::views(old(out)@), rows@, scores@, rows@.len() as int),
{
    let mut i: usize = 0;
    while i < rows.len()
        invariant
            i <= rows.len(),
            text::views(out@) == write_branches_lines(text::views(old(out)@), rows@, scores@, i as int),
        decreases rows.len() - i,
    {
        let x = &rows[i];
        let t = &scores[i];
        let mut line = cat5("| ", count_text(i + 1).as_str(), " | ", table_cell(x.root_dimension.as_str()).as_str(), "=");
        line.append(table_cell(x.root_segment.as_str()).as_str());
        line.append(" | ");
        line.append(t.root_score.as_str());
        line.append(" | depth ");
        line.append(count_text(x.deepest_depth).as_str());
        line.append(" / ");
        line.append(table_cell(x.deepest_dimension.as_str()).as_str());
        line.append(" | ");
        line.append(table_cell(x.deepest_segment.as_str()).as_str());
        line.append(" | ");
        line.append(t.delta.as_str());
        line.append(" |");
        say(out, line);
        i += 1;
    }
}

/// A row for each step that has movers.
pub open spec fn write_coverage_rows_lines(out: Seq<Seq<char>>, steps: Seq<InvestigationStep>, texts: Seq<StepTexts>, n: int) -> Seq<Seq<char>>
    decreases n,
{
    if n <= 0 {
        out
    } else {
        let out = write_coverage_rows_lines(out, steps, texts, n - 1);
        let x = steps[n - 1];
        let t = texts[n - 1];
        let out = if x.movers@.len() > 0 {
            let out = out.push("| "@ + digits::decimal((n - 1) as nat) + " | "@ + digits::decimal(x.depth as nat) + " | "@ + cell_text(x.dimension@) + " | "@ + cell_text(x.movers@[0].segment@) + " | "@ + t.signed_delta@ + " | "@ + t.explained@ + "% | "@ + t.residual@ + " |"@);
            out
        } else {
            out
        };
        out
    }
}

/// A row for each step that has movers.
#[verifier::loop_isolation(false)]
pub fn write_coverage_rows(out: &mut Vec<String>, steps: &Vec<InvestigationStep>, texts: &Vec<StepTexts>)
    requires
        texts.len() == steps.len(),
    ensures
        text::views(final(out)@) == write_coverage_rows_lines(text::views(old(out)@), steps@, texts@, steps@.len() as int),
{
    let mut i: usize = 0;
    while i < steps.len()
        invariant
            i <= steps.len(),
            text::views(out@) == write_coverage_rows_lines(text::views(old(out)@), steps@, texts@, i as int),
        decreases steps.len() - i,
    {
        let x = &steps[i];
        let t = &texts[i];
        if x.movers.len() > 0 {
            let mut line = cat5("| ", count_text(i).as_str(), " | ", count_text(x.depth).as_str(), " | ");
            line.append(table_cell(x.dimension.as_str()).as_str());
            line.append(" | ");
            line.append(table_cell(x.movers[0].segment.as_str()).as_str());
            line.append(" | ");
            line.append(t.signed_delta.as_str());
            line.append(" | ");
            line.append(t.explained.as_str());
            line.append("% | ");
            line.append(t.residual.as_str());
            line.append(" |");
            say(out, line);
        }
        i += 1;
    }
}

/// A line for each decision.
pub open spec fn write_trace_lines(out: Seq<Seq<char>>, trace: Seq<InvestigationTraceStep>, n: int) -> Seq<Seq<char>>
    decreases n,
{
    if n <= 0 {
        out
    } else {
        let out = write_trace_lines(out, trace, n - 1);
        let x = trace[n - 1];
        let out = out.push("- depth="@ + digits::decimal(x.depth as nat) + " action="@ + x.action@ + " scope=["@ + scope::scope_text(scope::bindings(x.scope@)) + "] decision="@ + x.decision@);
        out
    }
}

/// A line for each decision.
#[verifier::loop_isolation(false)]
pub fn write_trace(out: &mut Vec<String>, trace: &Vec<InvestigationTraceStep>)
    ensures
        text::views(final(out)@) == write_trace_lines(text::views(old(out)@), trace@, trace@.len() as int),
{
    let mut i: usize = 0;
    while i < trace.len()
        invariant
            i <= trace.len(),
            text::views(out@) == write_trace_lines(text::views(old(out)@), trace@, i as int),
        decreases trace.len() - i,
    {
        let x = &trace[i];
        let mut line = cat5("- depth=", count_text(x.depth).as_str(), " action=", x.action.as_str(), " scope=[");
        line.append(format_scope(x.scope.as_slice()).as_str());
        line.append("] decision=");
        line.append(x.decision.as_str());
        say(out, line);
        i += 1;
    }
}

/// The given lines.
pub open spec fn write_all_lines(out: Seq<Seq<char>>, items: Seq<String>, n: int) -> Seq<Seq<char>>
    decreases n,
{
    if n <= 0 {
        out
    } else {
        let out = write_all_lines(out, items, n - 1);
        let x = items[n - 1];
        let out = out.push(x@);
        out
    }
}

/// The given lines.
#[verifier::loop_isolation(false)]
pub fn write_all(out: &mut Vec<String>, items: &Vec<String>)
    ensures
        text::views(final(out)@) == write_all_lines(text::views(old(out)@), items@, items@.len() as int),
{
    let mut i: usize = 0;
    while i < items.len()
        invariant
            i <= items.len(),
            text::views(out@) == write_all_lines(text::views(old(out)@), items@, i as int),
        decreases items.len() - i,
    {
        let x = &items[i];
        say(out, x.as_str().to_owned());
        i += 1;
    }
}

/// What was asked of what.
pub open spec fn write_page_head_lines(out: Seq<Seq<char>>, p: PageTexts) -> Seq<Seq<char>> {
    let out = out.push("# Investigation Report"@);
    let out = out.push(""@);
    let out = out.push("- Question: "@ + p.question@);
    let out = out.push("- Mode: "@ + args::investigation_mode_label_text(p.mode));
    let out = out.push("- Base input: "@ + p.base@);
    let out = out.push("- New input: "@ + p.new@);
    let out = out.push(""@);
    out
}

/// What was asked of what.
pub fn write_page_head(out: &mut Vec<String>, p: &PageTexts)
    ensures
        text::views(final(out)@) == write_page_head_lines(text::views(old(out)@), *p),
{
    say(out, "# Investigation Report".to_owned());
    say(out, "".to_owned());
    say(out, cat2("- Question: ", p.question.as_str()));
    say(out, cat2("- Mode: ", investigation_mode_label(p.mode)));
    say(out, cat2("- Base input: ", p.base.as_str()));
    say(out, cat2("- New input: ", p.new.as_str()));
    say(out, "".to_owned());
}

/// Everything that concerns the whole data.
pub open spec fn write_top_section_lines(out: Seq<Seq<char>>, s: InvestigationStep, changes: Seq<InvestigationMajorChange>, p: PageTexts) -> Seq<Seq<char>> {
    let out = write_top_finding_lines(out, s, p.top);
    let out = if s.movers@.len() > 0 {
        let out = write_top_tables_lines(out, s, p.top);
        out
    } else {
        out
    };
    let out = if changes.len() > 0 {
        let out = out.push("### Strongest mover by configured dimension"@);
        let out = out.push(""@);
        let out = out.push("| # | Dimension | Segment | Delta metric | Delta share |"@);
        let out = out.push("|---:|---|---|---:|---:|"@);
        let out = write_changes_lines(out, changes, p.changes@, changes.len() as int);
        let out = out.push(""@);
        out
    } else {
        out
    };
    let out = out.push(""@);
    out
}

/// Everything that concerns the whole data.
pub fn write_top_section(out: &mut Vec<String>, s: &InvestigationStep, changes: &Vec<InvestigationMajorChange>, p: &PageTexts)
    requires
        has_top_figures(p.top, *s),
        p.changes.len() == changes.len(),
    ensures
        text::views(final(out)@) == write_top_section_lines(text::views(old(out)@), *s, changes@, *p),
{
    write_top_finding(out, s, &p.top);
    if s.movers.len() > 0 {
        write_top_tables(out, s, &p.top);
    }
    if changes.len() > 0 {
        say(out, "### Strongest mover by configured dimension".to_owned());
        say(out, "".to_owned());
        say(out, "| # | Dimension | Segment | Delta metric | Delta share |".to_owned());
        say(out, "|---:|---|---|---:|---:|".to_owned());
        write_changes(out, changes, &p.changes);
        say(out, "".to_owned());
    }
    say(out, "".to_owned());
}

/// The steps below the top.
pub open spec fn write_follow_up_section_lines(out: Seq<Seq<char>>, steps: Seq<InvestigationStep>, texts: Seq<StepTexts>) -> Seq<Seq<char>> {
    let out = out.push("## Follow-up findings"@);
    let out = out.push(""@);
    let out = if steps.len() <= 1 {
        let out = out.push("- No follow-up step executed."@);
        out
    } else {
        let out = write_follow_ups_lines(out, steps, texts, steps.len() as int);
        let out = out.push(""@);
        let out = out.push("### Follow-up strongest movers table"@);
        let out = out.push(""@);
        let out = out.push("| Depth | Scope | Grouped by | Strongest mover | Delta metric | Delta share |"@);
        let out = out.push("|---:|---|---|---|---:|---:|"@);
        let out = write_follow_up_rows_lines(out, steps, texts, steps.len() as int);
        out
    };
    let out = out.push(""@);
    out
}

/// The steps below the top.
pub fn write_follow_up_section(out: &mut Vec<String>, steps: &Vec<InvestigationStep>, texts: &Vec<StepTexts>)
    requires
        texts.len() == steps.len(),
    ensures
        text::views(final(out)@) == write_follow_up_section_lines(text::views(old(out)@), steps@, texts@),
{
    say(out, "## Follow-up findings".to_owned());
    say(out, "".to_owned());
    if steps.len() <= 1 {
        say(out, "- No follow-up step executed.".to_owned());
    } else {
        write_follow_ups(out, steps, texts);
        say(out, "".to_owned());
        say(out, "### Follow-up strongest movers table".to_owned());
        say(out, "".to_owned());
        say(out, "| Depth | Scope | Grouped by | Strongest mover | Delta metric | Delta share |".to_owned());
        say(out, "|---:|---|---|---|---:|---:|".to_owned());
        write_follow_up_rows(out, steps, texts);
    }
    say(out, "".to_owned());
}

/// The branches side by side.
pub open spec fn write_branch_section_lines(out: Seq<Seq<char>>, rows: Seq<InvestigationBranchSummaryRow>, scores: Seq<BranchTexts>) -> Seq<Seq<char>> {
    let out = if rows.len() > 0 {
        let out = out.push("### Top branches (side-by-side)"@);
        let out = out.push(""@);
        let out = out.push("| Branch | Root scope | Root score | Deepest step | Deepest strongest mover | Deepest delta metric |"@);
        let out = out.push("|---:|---|---:|---|---|---:|"@);
        let out = write_branches_lines(out, rows, scores, rows.len() as int);
        let out = out.push(""@);
        out
    } else {
        out
    };
    out
}

/// The branches side by side.
pub fn write_branch_section(out: &mut Vec<String>, rows: &Vec<InvestigationBranchSummaryRow>, scores: &Vec<BranchTexts>)
    requires
        scores.len() == rows.len(),
    ensures
        text::views(final(out)@) == write_branch_section_lines(text::views(old(out)@), rows@, scores@),
{
    if rows.len() > 0 {
        say(out, "### Top branches (side-by-side)".to_owned());
        say(out, "".to_owned());
        say(out, "| Branch | Root scope | Root score | Deepest step | Deepest strongest mover | Deepest delta metric |".to_owned());
        say(out, "|---:|---|---:|---|---|---:|".to_owned());
        write_branches(out, rows, scores);
        say(out, "".to_owned());
    }
}

/// How much of the change the steps explain.
pub open spec fn write_coverage_section_lines(out: Seq<Seq<char>>, steps: Seq<InvestigationStep>, texts: Seq<StepTexts>, p: PageTexts) -> Seq<Seq<char>> {
    let out = out.push("## Coverage"@);
    let out = out.push(""@);
    let out = if steps.len() > 0 {
        let out = out.push("- Total delta (`"@ + steps[0].primary_metric@ + "`) = "@ + p.total_delta@ + " (abs "@ + p.total_delta_abs@ + ")."@);
        out
    } else {
        let out = out.push("- Total delta (`primary_metric`) = "@ + p.total_delta@ + " (abs "@ + p.total_delta_abs@ + ")."@);
        out
    };
    let out = if strongest_named(steps) {
        let out = out.push("- Top-level strongest segment `"@ + steps[0].movers@[0].segment@ + "` explains "@ + p.strongest_explained@ + "% of total delta."@);
        out
    } else {
        out
    };
    let out = if some_movers(steps) {
        let out = out.push(""@);
        let out = out.push("### Step coverage table"@);
        let out = out.push(""@);
        let out = out.push("| Step | Depth | Dimension | Strongest segment | Delta metric | Explained % of total | Residual abs after step |"@);
        let out = out.push("|---:|---:|---|---|---:|---:|---:|"@);
        let out = write_coverage_rows_lines(out, steps, texts, steps.len() as int);
        let out = out.push(""@);
        out
    } else {
        out
    };
    out
}

/// How much of the change the steps explain.
pub fn write_coverage_section(out: &mut Vec<String>, steps: &Vec<InvestigationStep>, texts: &Vec<StepTexts>, p: &PageTexts)
    requires
        texts.len() == steps.len(),
    ensures
        text::views(final(out)@) == write_coverage_section_lines(text::views(old(out)@), steps@, texts@, *p),
{
    say(out, "## Coverage".to_owned());
    say(out, "".to_owned());
    if steps.len() > 0 {
        let mut line = cat5("- Total delta (`", steps[0].primary_metric.as_str(), "`) = ", p.total_delta.as_str(), " (abs ");
        line.append(p.total_delta_abs.as_str());
        line.append(").");
        say(out, line);
    } else {
        say(out, cat5("- Total delta (`primary_metric`) = ", p.total_delta.as_str(), " (abs ", p.total_delta_abs.as_str(), ")."));
    }
    if names_strongest(steps) {
        say(out, cat5("- Top-level strongest segment `", steps[0].movers[0].segment.as_str(), "` explains ", p.strongest_explained.as_str(), "% of total delta."));
    }
    if has_any_movers(steps) {
        say(out, "".to_owned());
        say(out, "### Step coverage table".to_owned());
        say(out, "".to_owned());
        say(out, "| Step | Depth | Dimension | Strongest segment | Delta metric | Explained % of total | Residual abs after step |".to_owned());
        say(out, "|---:|---:|---|---|---:|---:|---:|".to_owned());
        write_coverage_rows(out, steps, texts);
        say(out, "".to_owned());
    }
}

/// All sections of the report.
pub open spec fn write_investigation_lines(out: Seq<Seq<char>>, p: PageTexts, changes: Seq<InvestigationMajorChange>, steps: Seq<InvestigationStep>, texts: Seq<StepTexts>, trace: Seq<InvestigationTraceStep>, rows: Seq<InvestigationBranchSummaryRow>, scores: Seq<BranchTexts>, graph: Seq<String>) -> Seq<Seq<char>> {
    let out = write_page_head_lines(out, p);
    let out = if steps.len() > 0 {
        let out = write_top_section_lines(out, steps[0], changes, p);
        out
    } else {
        out
    };
    let out = write_follow_up_section_lines(out, steps, texts);
    let out = write_branch_section_lines(out, rows, scores);
    let out = write_coverage_section_lines(out, steps, texts, p);
    let out = if steps.len() > 0 {
        let out = out.push("## Drill-down graph"@);
        let out = out.push(""@);
        let out = write_all_lines(out, graph, graph.len() as int);
        let out = out.push(""@);
        out
    } else {
        out
    };
    let out = out.push("## Why it stopped"@);
    let out = out.push(""@);
    let out = out.push("- "@ + p.stop_reason@);
    let out = out.push(""@);
    let out = out.push("## Recommended next question"@);
    let out = out.push(""@);
    let out = out.push("- "@ + p.next_question@);
    let out = out.push(""@);
    let out = out.push("## Decision trace"@);
    let out = out.push(""@);
    let out = write_trace_lines(out, trace, trace.len() as int);
    out
}

/// All sections of the report.
pub fn write_investigation(out: &mut Vec<String>, p: &PageTexts, changes: &Vec<InvestigationMajorChange>, steps: &Vec<InvestigationStep>, texts: &Vec<StepTexts>, trace: &Vec<InvestigationTraceStep>, rows: &Vec<InvestigationBranchSummaryRow>, scores: &Vec<BranchTexts>, graph: &Vec<String>)
    requires
        texts.len() == steps.len(),
        scores.len() == rows.len(),
        steps.len() > 0 ==> has_top_figures(p.top, steps@[0]),
        p.changes.len() == changes.len(),
    ensures
        text::views(final(out)@) == write_investigation_lines(text::views(old(out)@), *p, changes@, steps@, texts@, trace@, rows@, scores@, graph@),
{
    write_page_head(out, p);
    if steps.len() > 0 {
        write_top_section(out, &steps[0], changes, p);
    }
    write_follow_up_section(out, steps, texts);
    write_branch_section(out, rows, scores);
    write_coverage_section(out, steps, texts, p);
    if steps.len() > 0 {
        say(out, "## Drill-down graph".to_owned());
        say(out, "".to_owned());
        write_all(out, graph);
        say(out, "".to_owned());
    }
    say(out, "## Why it stopped".to_owned());
    say(out, "".to_owned());
    say(out, cat2("- ", p.stop_reason.as_str()));
    say(out, "".to_owned());
    say(out, "## Recommended next question".to_owned());
    say(out, "".to_owned());
    say(out, cat2("- ", p.next_question.as_str()));
    say(out, "".to_owned());
    say(out, "## Decision trace".to_owned());
    say(out, "".to_owned());
    write_trace(out, trace);
}

/// The rows are the summary of the steps' branches, three at most.
pub open spec fn rows_tell(
    rows: Seq<InvestigationBranchSummaryRow>,
    steps: Seq<InvestigationStep>,
    mode: InvestigationMode,
) -> bool {
    exists|raised: Seq<crate::num::Num>|
        raised.len() == steps.len() && #[trigger] branches::is_branch_summary(
            rows,
            steps,
            mode,
            raised,
            3,
        )
}

/// The lines draw the graph of the steps.
pub open spec fn graph_tells(
    graph: Seq<String>,
    steps: Seq<InvestigationStep>,
    mode: InvestigationMode,
) -> bool {
    let nodes = branches::nodes_of(steps, mode);
    exists|edges: Seq<branches::BranchEdge>, improvements: Seq<String>|
        branches::edge_views(edges) == branches::edges_of(nodes, steps.len() as int)
            && improvements.len() == edges.len() && text::views(graph)
            == #[trigger] branches::graph_lines(nodes, edges, improvements)
}

/// The report as a page. `rows` are the branches of the steps, and `graph` holds
/// the lines of their drawn graph.
pub fn render_investigation_workflow_markdown(
    p: &PageTexts,
    changes: &Vec<InvestigationMajorChange>,
    steps: &Vec<InvestigationStep>,
    texts: &Vec<StepTexts>,
    trace: &Vec<InvestigationTraceStep>,
    rows: &Vec<InvestigationBranchSummaryRow>,
    scores: &Vec<BranchTexts>,
    graph: &Vec<String>,
) -> (r: String)
    requires
        texts.len() == steps.len(),
        scores.len() == rows.len(),
        steps.len() > 0 ==> has_top_figures(p.top, steps@[0]),
        p.changes.len() == changes.len(),
        rows_tell(rows@, steps@, p.mode),
        steps.len() > 0 ==> graph_tells(graph@, steps@, p.mode),
    ensures
        r@ == report::page(
            write_investigation_lines(
                Seq::empty(),
                *p,
                changes@,
                steps@,
                texts@,
                trace@,
                rows@,
                scores@,
                graph@,
            ),
        ),
{
    let mut out: Vec<String> = Vec::new();
    assert(text::views(out@) =~= Seq::empty());
    write_investigation(&mut out, p, changes, steps, texts, trace, rows, scores, graph);
    write_page(&out)
}

/// The largest segments come first by their value in the new period, and of
/// equally large ones the one that comes first by name.
pub proof fn law_largest_movers_come_first(movers: Seq<InvestigationMover>)
    requires
        forall|i: int|
            0 <= i < movers.len() ==> !(#[trigger] movers[i]).new_primary_metric_value.is_nan(),
    ensures
        order::sorted(movers, larger_first()).to_multiset() == movers.to_multiset(),
        order::falls_by_name(
            order::sorted(movers, larger_first()),
            |m: InvestigationMover| m.new_primary_metric_value.rank(),
            |m: InvestigationMover| m.segment@,
        ),
{
    let rank = |m: InvestigationMover| m.new_primary_metric_value.rank();
    let name = |m: InvestigationMover| m.segment@;
    let before = larger_first();
    assert forall|a: InvestigationMover| #[trigger]
        movers.contains(a) implies !a.new_primary_metric_value.is_nan() by {
        let i = choose|i: int| 0 <= i < movers.len() && movers[i] == a;
        assert(!movers[i].new_primary_metric_value.is_nan());
    }
    assert forall|a: InvestigationMover, b: InvestigationMover|
        movers.contains(a) && movers.contains(b) implies (#[trigger] before(a, b) <==> rank(a)
        > rank(b) || (rank(a) == rank(b) && order::text_less(name(a), name(b)))) by {}
    order::lemma_sorted_permutation(movers, before);
    order::lemma_falls_by_name(movers, before, rank, name);
}

} // verus!
