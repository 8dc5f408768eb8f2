//! The written brief of an analysis. Figures come in as texts.

use vstd::prelude::*;

use crate::args::{AggKind, PercentileKind, PeriodPreset, TimeGrain};
use crate::dates;
use crate::dates::write_date;
use crate::digits;
use crate::digits::{count_text, decimal_text, difference_text, sign_text};
use crate::groups;
use crate::groups::is_blank_group_key;
use crate::list;
use crate::num::Num;
use crate::periods::WindowSet;
use crate::report;
use crate::report::{lesser, say, tick_all, write_page};
use crate::scan;
use crate::scan::{join_text, replaced_char, split_text};
use crate::table;
use crate::table::Filter;
use crate::text;
use crate::text::{cat2, cat3, cat4, cat5, same, to_lower, trimmed};

verus! {

// ---------------------------------------------------------------------------
// What a brief is written from
// ---------------------------------------------------------------------------

/// The value of a metric in a segment, and its share of the total.
#[derive(Clone, Debug)]
pub struct MetricCell {
    pub metric: String,
    pub value: String,
    pub share: String,
}

/// A segment: its share of the records in percent, the value of the primary
/// metric, its share of the total, and its value per record.
#[derive(Clone, Debug)]
pub struct SegmentLine {
    pub group: String,
    pub count: u64,
    pub share: String,
    pub primary: String,
    pub primary_share: String,
    pub per_record: String,
    pub cells: Vec<MetricCell>,
}

/// A segment in two windows.
#[derive(Clone, Debug)]
pub struct PeriodLine {
    pub group: String,
    pub previous_count: u64,
    pub current_count: u64,
    pub share_change: String,
    pub previous_value: String,
    pub current_value: String,
    pub delta: String,
    pub percent: String,
}

/// Two windows: the segments by change of share and by change of value.
#[derive(Clone, Debug)]
pub struct PeriodBrief {
    pub date_column: String,
    pub windows: WindowSet,
    pub groups: Vec<String>,
    pub current_records: u64,
    pub previous_records: u64,
    pub previous_top5_share: String,
    pub current_top5_share: String,
    pub top5_share_change: String,
    pub previous_segments: usize,
    pub current_segments: usize,
    pub total_falls: bool,
    pub total_percent: String,
    pub previous_total: String,
    pub current_total: String,
    pub total_delta: String,
    pub by_share: Vec<PeriodLine>,
    pub by_delta: Vec<PeriodLine>,
}

/// Everything that a brief says.
#[derive(Clone, Debug)]
pub struct Brief {
    pub input: String,
    pub records: u64,
    pub segments: usize,
    pub groups: Vec<String>,
    pub profile: Option<String>,
    pub filters: Vec<String>,
    pub exclude_blank_groups: bool,
    pub rank: Option<String>,
    pub top: usize,
    pub top_insights: usize,
    pub opportunity_min_records: u64,
    pub min_records: u64,
    pub count_only: bool,
    pub agg: AggKind,
    pub percentiles: Vec<String>,
    pub normalize_text_groups: bool,
    pub metrics: Vec<String>,
    pub display_metrics: Vec<String>,
    pub primary: Option<String>,
    pub largest: Option<SegmentLine>,
    pub top5_share: String,
    pub top5_count: u64,
    pub top5_names: Vec<String>,
    pub top5_primary: String,
    pub top5_primary_share: String,
    pub top5_primary_average: String,
    pub period: Option<PeriodBrief>,
    pub alerts: Vec<String>,
    pub top_words: Vec<(String, u64)>,
    pub rows: Vec<SegmentLine>,
    pub risks: Vec<String>,
    pub opportunities: Vec<String>,
}

pub open spec fn grain_text(g: TimeGrain) -> Seq<char> {
    match g {
        TimeGrain::Day => "Day"@,
        TimeGrain::Week => "Week"@,
        TimeGrain::Month => "Month"@,
        TimeGrain::Year => "Year"@,
    }
}

/// The name of a grain.
pub fn grain_name(g: TimeGrain) -> (r: &'static str)
    ensures
        r@ == grain_text(g),
{
    match g {
        TimeGrain::Day => "Day",
        TimeGrain::Week => "Week",
        TimeGrain::Month => "Month",
        TimeGrain::Year => "Year",
    }
}

pub open spec fn preset_text(p: PeriodPreset) -> Seq<char> {
    match p {
        PeriodPreset::Current => "Current"@,
        PeriodPreset::Previous => "Previous"@,
        PeriodPreset::Last => "Last"@,
    }
}

/// The name of a period.
pub fn preset_name(p: PeriodPreset) -> (r: &'static str)
    ensures
        r@ == preset_text(p),
{
    match p {
        PeriodPreset::Current => "Current",
        PeriodPreset::Previous => "Previous",
        PeriodPreset::Last => "Last",
    }
}

/// Filters as column=value.
pub open spec fn filter_texts(filters: Seq<table::FilterView>) -> Seq<Seq<char>> {
    filters.map_values(|f: table::FilterView| f.column + "="@ + f.value)
}

/// Filters as column=value.
pub fn write_filters(filters: &Vec<Filter>) -> (r: Vec<String>)
    ensures
        text::views(r@) == filter_texts(table::filter_views(filters@)),
{
    let mut out: Vec<String> = Vec::new();
    let mut i: usize = 0;
    while i < filters.len()
        invariant
            i <= filters.len(),
            out.len() == i,
            forall|k: int|
                0 <= k < i ==> (#[trigger] out@[k])@ == filters@[k].column@ + "="@
                    + filters@[k].value@,
        decreases filters.len() - i,
    {
        out.push(cat3(filters[i].column.as_str(), "=", filters[i].value.as_str()));
        i += 1;
    }
    assert(text::views(out@) =~= filter_texts(table::filter_views(filters@)));
    out
}

/// The percentile columns of the first `m` metrics.
pub open spec fn percentile_columns(
    metrics: Seq<Seq<char>>,
    percentiles: Seq<PercentileKind>,
    m: int,
) -> Seq<Seq<char>>
    decreases m,
{
    if m <= 0 {
        Seq::empty()
    } else {
        percentile_columns(metrics, percentiles, m - 1) + Seq::new(
            percentiles.len(),
            |k: int| metrics[m - 1] + "_"@ + percentiles[k].label_text(),
        )
    }
}

/// The columns that are shown: the metrics, then their percentiles.
#[verifier::loop_isolation(false)]
pub fn shown_metrics(metrics: &Vec<String>, percentiles: &Vec<PercentileKind>) -> (r: Vec<String>)
    ensures
        text::views(r@) == text::views(metrics@) + percentile_columns(
            text::views(metrics@),
            percentiles@,
            metrics@.len() as int,
        ),
{
    let ghost all = text::views(metrics@);
    let mut out = text::copy_all(metrics);
    let mut i: usize = 0;
    assert(text::views(out@) =~= all + percentile_columns(all, percentiles@, 0));
    while i < metrics.len()
        invariant
            i <= metrics.len(),
            text::views(out@) == all + percentile_columns(all, percentiles@, i as int),
        decreases metrics.len() - i,
    {
        let ghost before = text::views(out@);
        let mut k: usize = 0;
        assert(text::views(out@) =~= before + Seq::new(
            0,
            |k: int| all[i as int] + "_"@ + percentiles@[k].label_text(),
        ));
        while k < percentiles.len()
            invariant
                k <= percentiles.len(),
                text::views(out@) == before + Seq::new(
                    k as nat,
                    |k: int| all[i as int] + "_"@ + percentiles@[k].label_text(),
                ),
            decreases percentiles.len() - k,
        {
            let ghost inner = text::views(out@);
            out.push(cat3(metrics[i].as_str(), "_", percentiles[k].label()));
            assert(text::views(out@) =~= inner.push(
                all[i as int] + "_"@ + percentiles@[k as int].label_text(),
            ));
            k += 1;
            assert(text::views(out@) =~= before + Seq::new(
                k as nat,
                |k: int| all[i as int] + "_"@ + percentiles@[k].label_text(),
            ));
        }
        i += 1;
        assert(text::views(out@) =~= all + percentile_columns(all, percentiles@, i as int));
    }
    out
}

/// The column is the primary metric and its values are added up.
pub open spec fn summed(b: Brief, metric: Seq<char>) -> bool {
    b.agg == AggKind::Sum && metric == (match b.primary {
        Some(pm) => pm@,
        None => ""@,
    })
}

/// Whether a column is the primary metric and its values are added up.
pub fn is_summed(b: &Brief, metric: &str) -> (r: bool)
    ensures
        r == summed(*b, metric@),
{
    if b.agg == AggKind::Sum {
        match &b.primary {
            Some(pm) => same(metric, pm.as_str()),
            None => same(metric, ""),
        }
    } else {
        false
    }
}

/// The first `n` parts of a key as table cells; a part that is not there is empty.
pub open spec fn key_cells(out: Seq<char>, parts: Seq<Seq<char>>, n: int) -> Seq<char>
    decreases n,
{
    if n <= 0 {
        out
    } else {
        let out = key_cells(out, parts, n - 1);
        let cell = if n - 1 < parts.len() {
            scan::replace_char(text::trim(parts[n - 1]), '|', "\\|"@)
        } else {
            ""@
        };
        out + " "@ + cell + " |"@
    }
}

/// Adds the first `n` parts of a key as table cells.
#[verifier::loop_isolation(false)]
pub fn add_key_cells(out: &mut String, group: &str, n: usize)
    ensures
        final(out)@ == key_cells(old(out)@, groups::key_parts(group@), n as int),
{
    proof {
        reveal_strlit(" | ");
    }
    let parts = split_text(group, " | ");
    let mut i: usize = 0;
    while i < n
        invariant
            i <= n,
            out@ == key_cells(old(out)@, groups::key_parts(group@), i as int),
        decreases n - i,
    {
        out.append(" ");
        if i < parts.len() {
            assert(groups::key_parts(group@)[i as int] == parts@[i as int]@);
            let cell = replaced_char(trimmed(parts[i].as_str()).as_str(), '|', "\\|");
            out.append(cell.as_str());
        } else {
            out.append("");
        }
        out.append(" |");
        i += 1;
    }
}

// ---------------------------------------------------------------------------
// Sections
// ---------------------------------------------------------------------------

/// One bullet for each text.
pub open spec fn write_bullets_lines(out: Seq<Seq<char>>, items: Seq<String>, n: int) -> Seq<Seq<char>>
    decreases n,
{
    if n <= 0 {
        out
    } else {
        let out = write_bullets_lines(out, items, n - 1);
        let x = items[n - 1];
        let out = out.push("- "@ + x@);
        out
    }
}

/// One bullet for each text.
#[verifier::loop_isolation(false)]
pub fn write_bullets(out: &mut Vec<String>, items: &Vec<String>)
    ensures
        text::views(final(out)@) == write_bullets_lines(text::views(old(out)@), items@, items@.len() as int),
{
    let mut i: usize = 0;
    while i < items.len()
        invariant
            i <= items.len(),
            text::views(out@) == write_bullets_lines(text::views(old(out)@), items@, i as int),
        decreases items.len() - i,
    {
        let x = &items[i];
        say(out, cat2("- ", x.as_str()));
        i += 1;
    }
}

/// What was analysed, and how.
pub open spec fn write_header_lines(out: Seq<Seq<char>>, b: Brief) -> Seq<Seq<char>> {
    let out = out.push("# Analysis Brief"@);
    let out = out.push(""@);
    let out = out.push("- Input: "@ + b.input@);
    let out = out.push("- Records (after filters): "@ + digits::decimal(b.records as nat));
    let out = out.push("- Segments (distinct grouped combinations): "@ + digits::decimal(b.segments as nat));
    let out = out.push("- Grouped by: "@ + scan::join(text::views(b.groups@), ", "@));
    let out = match b.profile {
        Some(p) => {
            let out = out.push("- Profile: "@ + p@);
            out
        },
        None => out,
    };
    let out = if b.filters@.len() == 0 {
        let out = out.push("- Filters: none"@);
        out
    } else {
        let out = out.push("- Filters: "@ + scan::join(text::views(b.filters@), ", "@));
        out
    };
    let out = if b.exclude_blank_groups {
        let out = out.push("- Blank groups: excluded"@);
        out
    } else {
        let out = out.push("- Blank groups: included"@);
        out
    };
    let out = match b.rank {
        Some(m) => {
            let out = out.push("- Ranking: "@ + m@);
            out
        },
        None => {
            let out = out.push("- Ranking: count"@);
            out
        },
    };
    let out = out.push("- Top rows shown: "@ + digits::decimal(b.top as nat));
    let out = if b.top_insights > 0 {
        let out = out.push("- Top insights requested: "@ + digits::decimal(b.top_insights as nat));
        let out = out.push("- Opportunity min records: "@ + digits::decimal(b.opportunity_min_records as nat));
        out
    } else {
        out
    };
    let out = out.push("- Minimum records per segment: "@ + digits::decimal(b.min_records as nat));
    let out = if b.count_only {
        let out = out.push("- Metric aggregation: Count-only (no numeric metrics)"@);
        out
    } else {
        let out = out.push("- Metric aggregation: "@ + b.agg.label_text());
        out
    };
    let out = if b.percentiles@.len() > 0 {
        let out = out.push("- Extra percentile columns: "@ + scan::join(text::views(b.percentiles@), ", "@));
        out
    } else {
        out
    };
    let out = if b.normalize_text_groups {
        let out = out.push("- Text normalization for name/title groups: enabled"@);
        out
    } else {
        out
    };
    let out = if b.metrics@.len() == 0 {
        let out = if b.count_only {
            let out = out.push("- Metrics: disabled via --count-only"@);
            out
        } else {
            let out = out.push("- Metrics: none detected (count-only analysis)"@);
            out
        };
        out
    } else {
        let out = out.push("- Metrics: "@ + scan::join(text::views(b.metrics@), ", "@));
        out
    };
    let out = out.push(""@);
    out
}

/// What was analysed, and how.
pub fn write_header(out: &mut Vec<String>, b: &Brief)
    ensures
        text::views(final(out)@) == write_header_lines(text::views(old(out)@), *b),
{
    say(out, "# Analysis Brief".to_owned());
    say(out, "".to_owned());
    say(out, cat2("- Input: ", b.input.as_str()));
    say(out, cat2("- Records (after filters): ", decimal_text(b.records).as_str()));
    say(out, cat2("- Segments (distinct grouped combinations): ", count_text(b.segments).as_str()));
    say(out, cat2("- Grouped by: ", join_text(&b.groups, ", ").as_str()));
    match &b.profile {
        Some(p) => {
            say(out, cat2("- Profile: ", p.as_str()));
        },
        None => {},
    }
    if b.filters.len() == 0 {
        say(out, "- Filters: none".to_owned());
    } else {
        say(out, cat2("- Filters: ", join_text(&b.filters, ", ").as_str()));
    }
    if b.exclude_blank_groups {
        say(out, "- Blank groups: excluded".to_owned());
    } else {
        say(out, "- Blank groups: included".to_owned());
    }
    match &b.rank {
        Some(m) => {
            say(out, cat2("- Ranking: ", m.as_str()));
        },
        None => {
            say(out, "- Ranking: count".to_owned());
        },
    }
    say(out, cat2("- Top rows shown: ", count_text(b.top).as_str()));
    if b.top_insights > 0 {
        say(out, cat2("- Top insights requested: ", count_text(b.top_insights).as_str()));
        say(out, cat2("- Opportunity min records: ", decimal_text(b.opportunity_min_records).as_str()));
    }
    say(out, cat2("- Minimum records per segment: ", decimal_text(b.min_records).as_str()));
    if b.count_only {
        say(out, "- Metric aggregation: Count-only (no numeric metrics)".to_owned());
    } else {
        say(out, cat2("- Metric aggregation: ", b.agg.label()));
    }
    if b.percentiles.len() > 0 {
        say(out, cat2("- Extra percentile columns: ", join_text(&b.percentiles, ", ").as_str()));
    }
    if b.normalize_text_groups {
        say(out, "- Text normalization for name/title groups: enabled".to_owned());
    }
    if b.metrics.len() == 0 {
        if b.count_only {
            say(out, "- Metrics: disabled via --count-only".to_owned());
        } else {
            say(out, "- Metrics: none detected (count-only analysis)".to_owned());
        }
    } else {
        say(out, cat2("- Metrics: ", join_text(&b.metrics, ", ").as_str()));
    }
    say(out, "".to_owned());
}

/// The largest segments.
pub open spec fn write_summary_lines(out: Seq<Seq<char>>, b: Brief) -> Seq<Seq<char>> {
    let out = out.push("## Executive Summary"@);
    let out = out.push(""@);
    let out = match b.largest {
        Some(s) => {
            let out = match b.primary {
                Some(pm) => {
                    let out = if b.agg == AggKind::Sum {
                        let out = out.push("- Largest segment is `"@ + s.group@ + "` with "@ + s.share@ + "% of records and "@ + s.primary_share@ + "% of total "@ + pm@ + "."@);
                        out
                    } else {
                        let out = out.push("- Largest segment is `"@ + s.group@ + "` with "@ + s.share@ + "% of records and "@ + s.primary@ + " "@ + pm@ + " ("@ + b.agg.label_text() + ")."@);
                        out
                    };
                    out
                },
                None => {
                    let out = out.push("- Largest segment is `"@ + s.group@ + "` with "@ + s.share@ + "% of records."@);
                    out
                },
            };
            out
        },
        None => out,
    };
    let out = match b.primary {
        Some(pm) => {
            let out = if b.agg == AggKind::Sum {
                let out = out.push("- Top 5 segments represent "@ + b.top5_share@ + "% of records and "@ + b.top5_primary_share@ + "% of "@ + pm@ + "."@);
                out
            } else {
                let out = out.push("- Top 5 segments represent "@ + b.top5_share@ + "% of records and average "@ + b.top5_primary_average@ + " "@ + pm@ + " across top 5 segments ("@ + b.agg.label_text() + ")."@);
                out
            };
            out
        },
        None => {
            let out = out.push("- Top 5 segments represent "@ + b.top5_share@ + "% of records."@);
            out
        },
    };
    let out = if b.top5_names@.len() > 0 {
        let out = out.push("- Top 5 segment names: "@ + scan::join(report::ticked(text::views(b.top5_names@)), ", "@) + "."@);
        out
    } else {
        out
    };
    let out = out.push(""@);
    out
}

/// The largest segments.
pub fn write_summary(out: &mut Vec<String>, b: &Brief)
    ensures
        text::views(final(out)@) == write_summary_lines(text::views(old(out)@), *b),
{
    say(out, "## Executive Summary".to_owned());
    say(out, "".to_owned());
    match &b.largest {
        Some(s) => {
            match &b.primary {
                Some(pm) => {
                    if b.agg == AggKind::Sum {
                        let mut line = cat5("- Largest segment is `", s.group.as_str(), "` with ", s.share.as_str(), "% of records and ");
                        line.append(s.primary_share.as_str());
                        line.append("% of total ");
                        line.append(pm.as_str());
                        line.append(".");
                        say(out, line);
                    } else {
                        let mut line = cat5("- Largest segment is `", s.group.as_str(), "` with ", s.share.as_str(), "% of records and ");
                        line.append(s.primary.as_str());
                        line.append(" ");
                        line.append(pm.as_str());
                        line.append(" (");
                        line.append(b.agg.label());
                        line.append(").");
                        say(out, line);
                    }
                },
                None => {
                    say(out, cat5("- Largest segment is `", s.group.as_str(), "` with ", s.share.as_str(), "% of records."));
                },
            }
        },
        None => {},
    }
    match &b.primary {
        Some(pm) => {
            if b.agg == AggKind::Sum {
                let mut line = cat5("- Top 5 segments represent ", b.top5_share.as_str(), "% of records and ", b.top5_primary_share.as_str(), "% of ");
                line.append(pm.as_str());
                line.append(".");
                say(out, line);
            } else {
                let mut line = cat5("- Top 5 segments represent ", b.top5_share.as_str(), "% of records and average ", b.top5_primary_average.as_str(), " ");
                line.append(pm.as_str());
                line.append(" across top 5 segments (");
                line.append(b.agg.label());
                line.append(").");
                say(out, line);
            }
        },
        None => {
            say(out, cat3("- Top 5 segments represent ", b.top5_share.as_str(), "% of records."));
        },
    }
    if b.top5_names.len() > 0 {
        say(out, cat3("- Top 5 segment names: ", join_text(&tick_all(&b.top5_names), ", ").as_str(), "."));
    }
    say(out, "".to_owned());
}

/// The strongest changes of share, numbered.
pub open spec fn write_share_changes_lines(out: Seq<Seq<char>>, items: Seq<PeriodLine>, n: int) -> Seq<Seq<char>>
    decreases n,
{
    if n <= 0 {
        out
    } else {
        let out = write_share_changes_lines(out, items, n - 1);
        let x = items[n - 1];
        let out = out.push(digits::decimal(n as nat) + ". `"@ + x.group@ + "`   "@ + digits::decimal(x.previous_count as nat) + " -> "@ + digits::decimal(x.current_count as nat) + " records ("@ + x.share_change@ + " pp)"@);
        out
    }
}

/// The strongest changes of share, numbered.
#[verifier::loop_isolation(false)]
pub fn write_share_changes(out: &mut Vec<String>, items: &Vec<PeriodLine>)
    ensures
        text::views(final(out)@) == write_share_changes_lines(text::views(old(out)@), items@, report::least(items@.len() as int, 5usize as int)),
{
    let count: usize = lesser(items.len(), 5usize);
    let mut i: usize = 0;
    while i < count
        invariant
            i <= count,
            text::views(out@) == write_share_changes_lines(text::views(old(out)@), items@, i as int),
        decreases count - i,
    {
        let x = &items[i];
        let mut line = cat5(count_text(i + 1).as_str(), ". `", x.group.as_str(), "`   ", decimal_text(x.previous_count).as_str());
        line.append(" -> ");
        line.append(decimal_text(x.current_count).as_str());
        line.append(" records (");
        line.append(x.share_change.as_str());
        line.append(" pp)");
        say(out, line);
        i += 1;
    }
}

/// The strongest declines of the metric.
pub open spec fn write_declines_lines(out: Seq<Seq<char>>, items: Seq<PeriodLine>, n: int) -> Seq<Seq<char>>
    decreases n,
{
    if n <= 0 {
        out
    } else {
        let out = write_declines_lines(out, items, n - 1);
        let x = items[n - 1];
        let out = out.push("  - `"@ + x.group@ + "`: "@ + x.previous_value@ + " -> "@ + x.current_value@ + " (delta="@ + x.delta@ + ", "@ + x.percent@ + "%)"@);
        out
    }
}

/// The strongest declines of the metric.
#[verifier::loop_isolation(false)]
pub fn write_declines(out: &mut Vec<String>, items: &Vec<PeriodLine>)
    ensures
        text::views(final(out)@) == write_declines_lines(text::views(old(out)@), items@, report::least(items@.len() as int, 5usize as int)),
{
    let count: usize = lesser(items.len(), 5usize);
    let mut i: usize = 0;
    while i < count
        invariant
            i <= count,
            text::views(out@) == write_declines_lines(text::views(old(out)@), items@, i as int),
        decreases count - i,
    {
        let x = &items[i];
        let mut line = cat5("  - `", x.group.as_str(), "`: ", x.previous_value.as_str(), " -> ");
        line.append(x.current_value.as_str());
        line.append(" (delta=");
        line.append(x.delta.as_str());
        line.append(", ");
        line.append(x.percent.as_str());
        line.append("%)");
        say(out, line);
        i += 1;
    }
}

/// How the current window differs from the previous one.
pub open spec fn write_period_lines(out: Seq<Seq<char>>, b: Brief, p: PeriodBrief) -> Seq<Seq<char>> {
    let out = out.push("## Period Comparison"@);
    let out = out.push(""@);
    let out = out.push("- Date column: `"@ + p.date_column@ + "`"@);
    let out = match p.windows.time_grain {
        Some(g) => {
            let out = match p.windows.period {
                Some(preset) => {
                    let out = out.push("- Window mode: "@ + grain_text(g) + " / "@ + preset_text(preset));
                    out
                },
                None => out,
            };
            out
        },
        None => out,
    };
    let out = out.push("- Current window: "@ + dates::date_text(p.windows.current_start) + " to "@ + dates::date_text(p.windows.current_end) + " (records="@ + digits::decimal(p.current_records as nat) + ")"@);
    let out = out.push("- Previous window: "@ + dates::date_text(p.windows.previous_start) + " to "@ + dates::date_text(p.windows.previous_end) + " (records="@ + digits::decimal(p.previous_records as nat) + ")"@);
    let out = out.push(""@);
    let out = out.push("### Executive Delta"@);
    let out = out.push(""@);
    let out = out.push("- Top-5 concentration changed from "@ + p.previous_top5_share@ + "% to "@ + p.current_top5_share@ + "% ("@ + p.top5_share_change@ + " pp)."@);
    let out = out.push("- Segment count changed from "@ + digits::decimal(p.previous_segments as nat) + " to "@ + digits::decimal(p.current_segments as nat) + " ("@ + digits::with_sign(p.current_segments - p.previous_segments) + ")."@);
    let out = out.push(""@);
    let out = out.push("### Top Concentration Changes"@);
    let out = out.push(""@);
    let out = write_share_changes_lines(out, p.by_share@, report::least(p.by_share@.len() as int, 5usize as int));
    let out = out.push(""@);
    let out = match b.primary {
        Some(pm) => {
            let out = if p.total_falls {
                let out = out.push("- "@ + pm@ + " ↓ "@ + p.total_percent@ + "% ("@ + p.previous_total@ + " -> "@ + p.current_total@ + ", delta="@ + p.total_delta@ + ")."@);
                out
            } else {
                let out = out.push("- "@ + pm@ + " ↑ "@ + p.total_percent@ + "% ("@ + p.previous_total@ + " -> "@ + p.current_total@ + ", delta="@ + p.total_delta@ + ")."@);
                out
            };
            let out = out.push("- Group drivers (largest declines) by `"@ + scan::join(text::views(p.groups@), ", "@) + "`:"@);
            let out = write_declines_lines(out, p.by_delta@, report::least(p.by_delta@.len() as int, 5usize as int));
            out
        },
        None => {
            let out = out.push("- Record delta: "@ + digits::signed_decimal(p.current_records - p.previous_records) + " (current="@ + digits::decimal(p.current_records as nat) + " vs previous="@ + digits::decimal(p.previous_records as nat) + ")."@);
            out
        },
    };
    let out = out.push(""@);
    out
}

/// How the current window differs from the previous one.
pub fn write_period(out: &mut Vec<String>, b: &Brief, p: &PeriodBrief)
    ensures
        text::views(final(out)@) == write_period_lines(text::views(old(out)@), *b, *p),
{
    say(out, "## Period Comparison".to_owned());
    say(out, "".to_owned());
    say(out, cat3("- Date column: `", p.date_column.as_str(), "`"));
    match &p.windows.time_grain {
        Some(g) => {
            match &p.windows.period {
                Some(preset) => {
                    say(out, cat4("- Window mode: ", grain_name(*g), " / ", preset_name(*preset)));
                },
                None => {},
            }
        },
        None => {},
    }
    let mut line = cat5("- Current window: ", write_date(p.windows.current_start).as_str(), " to ", write_date(p.windows.current_end).as_str(), " (records=");
    line.append(decimal_text(p.current_records).as_str());
    line.append(")");
    say(out, line);
    let mut line = cat5("- Previous window: ", write_date(p.windows.previous_start).as_str(), " to ", write_date(p.windows.previous_end).as_str(), " (records=");
    line.append(decimal_text(p.previous_records).as_str());
    line.append(")");
    say(out, line);
    say(out, "".to_owned());
    say(out, "### Executive Delta".to_owned());
    say(out, "".to_owned());
    let mut line = cat5("- Top-5 concentration changed from ", p.previous_top5_share.as_str(), "% to ", p.current_top5_share.as_str(), "% (");
    line.append(p.top5_share_change.as_str());
    line.append(" pp).");
    say(out, line);
    let mut line = cat5("- Segment count changed from ", count_text(p.previous_segments).as_str(), " to ", count_text(p.current_segments).as_str(), " (");
    line.append(sign_text(p.current_segments, p.previous_segments).as_str());
    line.append(").");
    say(out, line);
    say(out, "".to_owned());
    say(out, "### Top Concentration Changes".to_owned());
    say(out, "".to_owned());
    write_share_changes(out, &p.by_share);
    say(out, "".to_owned());
    match &b.primary {
        Some(pm) => {
            if p.total_falls {
                let mut line = cat5("- ", pm.as_str(), " ↓ ", p.total_percent.as_str(), "% (");
                line.append(p.previous_total.as_str());
                line.append(" -> ");
                line.append(p.current_total.as_str());
                line.append(", delta=");
                line.append(p.total_delta.as_str());
                line.append(").");
                say(out, line);
            } else {
                let mut line = cat5("- ", pm.as_str(), " ↑ ", p.total_percent.as_str(), "% (");
                line.append(p.previous_total.as_str());
                line.append(" -> ");
                line.append(p.current_total.as_str());
                line.append(", delta=");
                line.append(p.total_delta.as_str());
                line.append(").");
                say(out, line);
            }
            say(out, cat3("- Group drivers (largest declines) by `", join_text(&p.groups, ", ").as_str(), "`:"));
            write_declines(out, &p.by_delta);
        },
        None => {
            let mut line = cat5("- Record delta: ", difference_text(p.current_records, p.previous_records).as_str(), " (current=", decimal_text(p.current_records).as_str(), " vs previous=");
            line.append(decimal_text(p.previous_records).as_str());
            line.append(").");
            say(out, line);
        },
    }
    say(out, "".to_owned());
}

/// One bullet for each word.
pub open spec fn write_words_lines(out: Seq<Seq<char>>, items: Seq<(String, u64)>, n: int) -> Seq<Seq<char>>
    decreases n,
{
    if n <= 0 {
        out
    } else {
        let out = write_words_lines(out, items, n - 1);
        let x = items[n - 1];
        let out = out.push("- `"@ + x.0@ + "`: "@ + digits::decimal(x.1 as nat));
        out
    }
}

/// One bullet for each word.
#[verifier::loop_isolation(false)]
pub fn write_words(out: &mut Vec<String>, items: &Vec<(String, u64)>)
    ensures
        text::views(final(out)@) == write_words_lines(text::views(old(out)@), items@, items@.len() as int),
{
    let mut i: usize = 0;
    while i < items.len()
        invariant
            i <= items.len(),
            text::views(out@) == write_words_lines(text::views(old(out)@), items@, i as int),
        decreases items.len() - i,
    {
        let x = &items[i];
        say(out, cat4("- `", x.0.as_str(), "`: ", decimal_text(x.1).as_str()));
        i += 1;
    }
}

/// What stands out.
pub open spec fn write_insights_lines(out: Seq<Seq<char>>, b: Brief) -> Seq<Seq<char>> {
    let out = out.push("## Insights"@);
    let out = out.push(""@);
    let out = match b.largest {
        Some(s) => {
            let out = out.push("- Top segment by count: `"@ + s.group@ + "` with "@ + digits::decimal(s.count as nat) + " records ("@ + s.share@ + "% of all records)."@);
            let out = match b.primary {
                Some(pm) => {
                    let out = if b.agg == AggKind::Sum {
                        let out = out.push("- Top segment contributes "@ + s.primary@ + " `"@ + pm@ + "` ("@ + s.primary_share@ + "% of total `"@ + pm@ + "`)."@);
                        out
                    } else {
                        let out = out.push("- Top segment "@ + text::lower(b.agg.label_text()) + " `"@ + pm@ + "` is "@ + s.primary@ + "."@);
                        out
                    };
                    out
                },
                None => out,
            };
            out
        },
        None => out,
    };
    let out = out.push("- Concentration: top 5 segments account for "@ + digits::decimal(b.top5_count as nat) + " records ("@ + b.top5_share@ + "% of all records)."@);
    let out = match b.primary {
        Some(pm) => {
            let out = if b.agg == AggKind::Sum {
                let out = out.push("- Concentration by `"@ + pm@ + "`: top 5 segments represent "@ + b.top5_primary@ + " ("@ + b.top5_primary_share@ + "% of total)."@);
                out
            } else {
                let out = out.push("- Top 5 segments average `"@ + pm@ + "` as "@ + b.top5_primary_average@ + " ("@ + b.agg.label_text() + ")."@);
                out
            };
            out
        },
        None => out,
    };
    let out = out.push(""@);
    out
}

/// What stands out.
pub fn write_insights(out: &mut Vec<String>, b: &Brief)
    ensures
        text::views(final(out)@) == write_insights_lines(text::views(old(out)@), *b),
{
    say(out, "## Insights".to_owned());
    say(out, "".to_owned());
    match &b.largest {
        Some(s) => {
            let mut line = cat5("- Top segment by count: `", s.group.as_str(), "` with ", decimal_text(s.count).as_str(), " records (");
            line.append(s.share.as_str());
            line.append("% of all records).");
            say(out, line);
            match &b.primary {
                Some(pm) => {
                    if b.agg == AggKind::Sum {
                        let mut line = cat5("- Top segment contributes ", s.primary.as_str(), " `", pm.as_str(), "` (");
                        line.append(s.primary_share.as_str());
                        line.append("% of total `");
                        line.append(pm.as_str());
                        line.append("`).");
                        say(out, line);
                    } else {
                        let mut line = cat5("- Top segment ", to_lower(b.agg.label()).as_str(), " `", pm.as_str(), "` is ");
                        line.append(s.primary.as_str());
                        line.append(".");
                        say(out, line);
                    }
                },
                None => {},
            }
        },
        None => {},
    }
    say(out, cat5("- Concentration: top 5 segments account for ", decimal_text(b.top5_count).as_str(), " records (", b.top5_share.as_str(), "% of all records)."));
    match &b.primary {
        Some(pm) => {
            if b.agg == AggKind::Sum {
                let mut line = cat5("- Concentration by `", pm.as_str(), "`: top 5 segments represent ", b.top5_primary.as_str(), " (");
                line.append(b.top5_primary_share.as_str());
                line.append("% of total).");
                say(out, line);
            } else {
                let mut line = cat5("- Top 5 segments average `", pm.as_str(), "` as ", b.top5_primary_average.as_str(), " (");
                line.append(b.agg.label());
                line.append(").");
                say(out, line);
            }
        },
        None => {},
    }
    say(out, "".to_owned());
}

/// Risks and opportunities.
pub open spec fn write_top_insights_lines(out: Seq<Seq<char>>, risks: Seq<String>, opportunities: Seq<String>) -> Seq<Seq<char>> {
    let out = out.push("## Top Insights"@);
    let out = out.push(""@);
    let out = out.push("### Risks"@);
    let out = out.push(""@);
    let out = write_bullets_lines(out, risks, risks.len() as int);
    let out = out.push(""@);
    let out = out.push("### Opportunities"@);
    let out = out.push(""@);
    let out = write_bullets_lines(out, opportunities, opportunities.len() as int);
    let out = out.push(""@);
    out
}

/// Risks and opportunities.
pub fn write_top_insights(out: &mut Vec<String>, risks: &Vec<String>, opportunities: &Vec<String>)
    ensures
        text::views(final(out)@) == write_top_insights_lines(text::views(old(out)@), risks@, opportunities@),
{
    say(out, "## Top Insights".to_owned());
    say(out, "".to_owned());
    say(out, "### Risks".to_owned());
    say(out, "".to_owned());
    write_bullets(out, risks);
    say(out, "".to_owned());
    say(out, "### Opportunities".to_owned());
    say(out, "".to_owned());
    write_bullets(out, opportunities);
    say(out, "".to_owned());
}

/// A column head for each text.
pub open spec fn add_names_text(out: Seq<char>, items: Seq<String>, n: int) -> Seq<char>
    decreases n,
{
    if n <= 0 {
        out
    } else {
        let out = add_names_text(out, items, n - 1);
        let x = items[n - 1];
        let out = out + " "@ + x@ + " |"@;
        out
    }
}

/// A column head for each text.
#[verifier::loop_isolation(false)]
pub fn add_names(out: &mut String, items: &Vec<String>)
    ensures
        final(out)@ == add_names_text(old(out)@, items@, items@.len() as int),
{
    let mut i: usize = 0;
    while i < items.len()
        invariant
            i <= items.len(),
            out@ == add_names_text(old(out)@, items@, i as int),
        decreases items.len() - i,
    {
        let x = &items[i];
        out.append(" ");
        out.append(x.as_str());
        out.append(" |");
        i += 1;
    }
}

/// A rule below each of the group columns.
pub open spec fn add_rules_text(out: Seq<char>, items: Seq<String>, n: int) -> Seq<char>
    decreases n,
{
    if n <= 0 {
        out
    } else {
        let out = add_rules_text(out, items, n - 1);
        let x = items[n - 1];
        let out = out + "---|"@;
        out
    }
}

/// A rule below each of the group columns.
#[verifier::loop_isolation(false)]
pub fn add_rules(out: &mut String, items: &Vec<String>)
    ensures
        final(out)@ == add_rules_text(old(out)@, items@, items@.len() as int),
{
    let mut i: usize = 0;
    while i < items.len()
        invariant
            i <= items.len(),
            out@ == add_rules_text(old(out)@, items@, i as int),
        decreases items.len() - i,
    {
        let x = &items[i];
        out.append("---|");
        i += 1;
    }
}

/// A column head for each metric, and one for the share of the summed metric.
pub open spec fn add_metric_heads_text(out: Seq<char>, b: Brief, items: Seq<String>, n: int) -> Seq<char>
    decreases n,
{
    if n <= 0 {
        out
    } else {
        let out = add_metric_heads_text(out, b, items, n - 1);
        let x = items[n - 1];
        let out = if summed(b, x@) {
            let out = out + " "@ + x@ + " | "@ + x@ + " Share |"@;
            out
        } else {
            let out = out + " "@ + x@ + " |"@;
            out
        };
        out
    }
}

/// A column head for each metric, and one for the share of the summed metric.
#[verifier::loop_isolation(false)]
pub fn add_metric_heads(out: &mut String, b: &Brief, items: &Vec<String>)
    ensures
        final(out)@ == add_metric_heads_text(old(out)@, *b, items@, items@.len() as int),
{
    let mut i: usize = 0;
    while i < items.len()
        invariant
            i <= items.len(),
            out@ == add_metric_heads_text(old(out)@, *b, items@, i as int),
        decreases items.len() - i,
    {
        let x = &items[i];
        if is_summed(b, x.as_str()) {
            out.append(" ");
            out.append(x.as_str());
            out.append(" | ");
            out.append(x.as_str());
            out.append(" Share |");
        } else {
            out.append(" ");
            out.append(x.as_str());
            out.append(" |");
        }
        i += 1;
    }
}

/// A rule below each column of the metrics.
pub open spec fn add_metric_rules_text(out: Seq<char>, b: Brief, items: Seq<String>, n: int) -> Seq<char>
    decreases n,
{
    if n <= 0 {
        out
    } else {
        let out = add_metric_rules_text(out, b, items, n - 1);
        let x = items[n - 1];
        let out = if summed(b, x@) {
            let out = out + "---:|---:|"@;
            out
        } else {
            let out = out + "---:|"@;
            out
        };
        out
    }
}

/// A rule below each column of the metrics.
#[verifier::loop_isolation(false)]
pub fn add_metric_rules(out: &mut String, b: &Brief, items: &Vec<String>)
    ensures
        final(out)@ == add_metric_rules_text(old(out)@, *b, items@, items@.len() as int),
{
    let mut i: usize = 0;
    while i < items.len()
        invariant
            i <= items.len(),
            out@ == add_metric_rules_text(old(out)@, *b, items@, i as int),
        decreases items.len() - i,
    {
        let x = &items[i];
        if is_summed(b, x.as_str()) {
            out.append("---:|---:|");
        } else {
            out.append("---:|");
        }
        i += 1;
    }
}

/// The cells of the metrics.
pub open spec fn add_metric_cells_text(out: Seq<char>, b: Brief, items: Seq<MetricCell>, n: int) -> Seq<char>
    decreases n,
{
    if n <= 0 {
        out
    } else {
        let out = add_metric_cells_text(out, b, items, n - 1);
        let x = items[n - 1];
        let out = if summed(b, x.metric@) {
            let out = out + " "@ + x.value@ + " | "@ + x.share@ + "% |"@;
            out
        } else {
            let out = out + " "@ + x.value@ + " |"@;
            out
        };
        out
    }
}

/// The cells of the metrics.
#[verifier::loop_isolation(false)]
pub fn add_metric_cells(out: &mut String, b: &Brief, items: &Vec<MetricCell>)
    ensures
        final(out)@ == add_metric_cells_text(old(out)@, *b, items@, items@.len() as int),
{
    let mut i: usize = 0;
    while i < items.len()
        invariant
            i <= items.len(),
            out@ == add_metric_cells_text(old(out)@, *b, items@, i as int),
        decreases items.len() - i,
    {
        let x = &items[i];
        if is_summed(b, x.metric.as_str()) {
            out.append(" ");
            out.append(x.value.as_str());
            out.append(" | ");
            out.append(x.share.as_str());
            out.append("% |");
        } else {
            out.append(" ");
            out.append(x.value.as_str());
            out.append(" |");
        }
        i += 1;
    }
}

/// A table row for each segment.
pub open spec fn write_rows_lines(out: Seq<Seq<char>>, b: Brief, items: Seq<SegmentLine>, n: int) -> Seq<Seq<char>>
    decreases n,
{
    if n <= 0 {
        out
    } else {
        let out = write_rows_lines(out, b, items, n - 1);
        let x = items[n - 1];
        let row = key_cells("|"@, groups::key_parts(x.group@), b.groups@.len() as int);
        let row = row + " "@ + digits::decimal(x.count as nat) + " | "@ + x.share@ + "% |"@;
        let row = add_metric_cells_text(row, b, x.cells@, x.cells@.len() as int);
        let out = out.push(row);
        out
    }
}

/// A table row for each segment.
#[verifier::loop_isolation(false)]
pub fn write_rows(out: &mut Vec<String>, b: &Brief, items: &Vec<SegmentLine>)
    ensures
        text::views(final(out)@) == write_rows_lines(text::views(old(out)@), *b, items@, report::least(items@.len() as int, b.top as int)),
{
    let count: usize = lesser(items.len(), b.top);
    let mut i: usize = 0;
    while i < count
        invariant
            i <= count,
            text::views(out@) == write_rows_lines(text::views(old(out)@), *b, items@, i as int),
        decreases count - i,
    {
        let x = &items[i];
        let mut row = "|".to_owned();
        add_key_cells(&mut row, x.group.as_str(), b.groups.len());
        row.append(" ");
        row.append(decimal_text(x.count).as_str());
        row.append(" | ");
        row.append(x.share.as_str());
        row.append("% |");
        add_metric_cells(&mut row, b, &x.cells);
        say(out, row.as_str().to_owned());
        i += 1;
    }
}

/// The table of the segments.
pub open spec fn write_table_lines(out: Seq<Seq<char>>, b: Brief) -> Seq<Seq<char>> {
    let out = out.push("## Top Groups"@);
    let out = out.push(""@);
    let head = add_names_text("|"@, b.groups@, b.groups@.len() as int) + " Records | Record Share |"@;
    let head = add_metric_heads_text(head, b, b.display_metrics@, b.display_metrics@.len() as int);
    let out = out.push(head);
    let rule = add_rules_text("|"@, b.groups@, b.groups@.len() as int) + "---:|---:|"@;
    let rule = add_metric_rules_text(rule, b, b.display_metrics@, b.display_metrics@.len() as int);
    let out = out.push(rule);
    let out = write_rows_lines(out, b, b.rows@, report::least(b.rows@.len() as int, b.top as int));
    out
}

/// The table of the segments.
pub fn write_table(out: &mut Vec<String>, b: &Brief)
    ensures
        text::views(final(out)@) == write_table_lines(text::views(old(out)@), *b),
{
    say(out, "## Top Groups".to_owned());
    say(out, "".to_owned());
    let mut head = "|".to_owned();
    add_names(&mut head, &b.groups);
    head.append(" Records | Record Share |");
    add_metric_heads(&mut head, b, &b.display_metrics);
    say(out, head.as_str().to_owned());
    let mut rule = "|".to_owned();
    add_rules(&mut rule, &b.groups);
    rule.append("---:|---:|");
    add_metric_rules(&mut rule, b, &b.display_metrics);
    say(out, rule.as_str().to_owned());
    write_rows(out, b, &b.rows);
}

/// All sections of a brief.
pub open spec fn write_brief_lines(out: Seq<Seq<char>>, b: Brief) -> Seq<Seq<char>> {
    let out = write_header_lines(out, b);
    let out = write_summary_lines(out, b);
    let out = match b.period {
        Some(p) => {
            let out = write_period_lines(out, b, p);
            out
        },
        None => out,
    };
    let out = if b.alerts@.len() > 0 {
        let out = out.push("## Alerts"@);
        let out = out.push(""@);
        let out = write_bullets_lines(out, b.alerts@, b.alerts@.len() as int);
        let out = out.push(""@);
        out
    } else {
        out
    };
    let out = if b.top_words@.len() > 0 {
        let out = out.push("## Top Words"@);
        let out = out.push(""@);
        let out = write_words_lines(out, b.top_words@, b.top_words@.len() as int);
        let out = out.push(""@);
        out
    } else {
        out
    };
    let out = write_insights_lines(out, b);
    let out = if b.top_insights > 0 {
        let out = write_top_insights_lines(out, b.risks@, b.opportunities@);
        out
    } else {
        out
    };
    let out = write_table_lines(out, b);
    out
}

/// All sections of a brief.
pub fn write_brief(out: &mut Vec<String>, b: &Brief)
    ensures
        text::views(final(out)@) == write_brief_lines(text::views(old(out)@), *b),
{
    write_header(out, b);
    write_summary(out, b);
    match &b.period {
        Some(p) => {
            write_period(out, b, p);
        },
        None => {},
    }
    if b.alerts.len() > 0 {
        say(out, "## Alerts".to_owned());
        say(out, "".to_owned());
        write_bullets(out, &b.alerts);
        say(out, "".to_owned());
    }
    if b.top_words.len() > 0 {
        say(out, "## Top Words".to_owned());
        say(out, "".to_owned());
        write_words(out, &b.top_words);
        say(out, "".to_owned());
    }
    write_insights(out, b);
    if b.top_insights > 0 {
        write_top_insights(out, &b.risks, &b.opportunities);
    }
    write_table(out, b);
}

/// The brief as a page.
pub fn render_brief(b: &Brief) -> (r: String)
    ensures
        r@ == report::page(write_brief_lines(Seq::empty(), *b)),
{
    let mut out: Vec<String> = Vec::new();
    assert(text::views(out@) =~= Seq::empty());
    write_brief(&mut out, b);
    write_page(&out)
}

// ---------------------------------------------------------------------------
// Insights
// ---------------------------------------------------------------------------

/// A segment whose size is a risk.
pub open spec fn risk_text(s: SegmentLine, primary: Option<Seq<char>>, agg: AggKind) -> Seq<char> {
    let base = "`"@ + s.group@ + "` concentration: "@ + digits::decimal(s.count as nat)
        + " records ("@ + s.share@ + "% of total records)"@;
    match primary {
        Some(pm) => if agg == AggKind::Sum {
            base + ", "@ + s.primary_share@ + "% of total "@ + pm + "."@
        } else {
            base + "."@
        },
        None => base + "."@,
    }
}

fn write_risk(s: &SegmentLine, primary: &Option<String>, agg: AggKind) -> (r: String)
    ensures
        r@ == risk_text(*s, crate::planner::optional_text(*primary), agg),
{
    let mut out = cat5(
        "`",
        s.group.as_str(),
        "` concentration: ",
        decimal_text(s.count).as_str(),
        " records (",
    );
    out.append(s.share.as_str());
    out.append("% of total records)");
    match primary {
        Some(pm) => {
            if agg == AggKind::Sum {
                out.append(", ");
                out.append(s.primary_share.as_str());
                out.append("% of total ");
                out.append(pm.as_str());
            }
            out.append(".");
        },
        None => {
            out.append(".");
        },
    }
    out
}

/// Segments in an order: each item is the place of one of them.
pub open spec fn arranged(lines: Seq<SegmentLine>, order: Seq<usize>) -> Seq<SegmentLine> {
    order.map_values(|i: usize| lines[i as int])
}

/// Every item of an order is the place of one of `n` segments.
pub open spec fn are_places(order: Seq<usize>, n: int) -> bool {
    forall|i: int| 0 <= i < order.len() ==> 0 <= (#[trigger] order[i]) < n
}

/// The risks: the first `n` segments.
pub open spec fn risk_texts(
    items: Seq<SegmentLine>,
    primary: Option<Seq<char>>,
    agg: AggKind,
    n: int,
) -> Seq<Seq<char>> {
    Seq::new(n as nat, |i: int| risk_text(items[i], primary, agg))
}

/// The risks: the largest segments. `by_share` holds the places of the
/// segments, those with the largest shares first.
pub fn find_risks(
    lines: &Vec<SegmentLine>,
    by_share: &Vec<usize>,
    primary: &Option<String>,
    agg: AggKind,
    top_insights: usize,
) -> (r: Vec<String>)
    requires
        are_places(by_share@, lines@.len() as int),
    ensures
        text::views(r@) == risk_texts(
            arranged(lines@, by_share@),
            crate::planner::optional_text(*primary),
            agg,
            report::least(by_share@.len() as int, top_insights as int),
        ),
{
    let n: usize = lesser(by_share.len(), top_insights);
    let mut out: Vec<String> = Vec::new();
    let mut i: usize = 0;
    while i < n
        invariant
            i <= n <= by_share.len(),
            are_places(by_share@, lines@.len() as int),
            out.len() == i,
            forall|k: int|
                0 <= k < i ==> (#[trigger] out@[k])@ == risk_text(
                    arranged(lines@, by_share@)[k],
                    crate::planner::optional_text(*primary),
                    agg,
                ),
        decreases n - i,
    {
        let place: usize = by_share[i];
        out.push(write_risk(&lines[place], primary, agg));
        i += 1;
    }
    assert(text::views(out@) =~= risk_texts(
        arranged(lines@, by_share@),
        crate::planner::optional_text(*primary),
        agg,
        n as int,
    ));
    out
}

/// A segment with a high value per record.
pub open spec fn opportunity_text(s: SegmentLine, pm: Seq<char>) -> Seq<char> {
    "`"@ + s.group@ + "` has high "@ + pm + " per record ("@ + s.per_record@ + ") across "@
        + digits::decimal(s.count as nat) + " records."@
}

/// A segment that can be an opportunity.
pub open spec fn worth_naming(min_records: u64) -> spec_fn(SegmentLine) -> bool {
    |s: SegmentLine| !groups::is_blank_key(s.group@) && s.count >= min_records
}

/// The opportunities among the segments.
pub open spec fn opportunity_texts(
    items: Seq<SegmentLine>,
    pm: Seq<char>,
    min_records: u64,
    top_insights: int,
) -> Seq<Seq<char>> {
    let kept = list::keep(items, worth_naming(min_records));
    Seq::new(
        report::least(kept.len() as int, top_insights) as nat,
        |i: int| opportunity_text(kept[i], pm),
    )
}

/// The opportunities are told of segments with a name and enough records, in
/// their order, and of all of these where fewer are there than asked for.
pub proof fn law_opportunities_are_worth_naming(
    items: Seq<SegmentLine>,
    pm: Seq<char>,
    min_records: u64,
    top_insights: int,
)
    requires
        0 <= top_insights,
    ensures
        ({
            let told = opportunity_texts(items, pm, min_records, top_insights);
            let named = list::keep(
                items,
                |s: SegmentLine| !groups::is_blank_key(s.group@) && min_records <= s.count,
            );
            &&& told.len() == (if named.len() < top_insights {
                named.len() as int
            } else {
                top_insights
            })
            &&& forall|k: int|
                0 <= k < told.len() ==> #[trigger] told[k] == opportunity_text(named[k], pm)
        }),
{
    let p = |s: SegmentLine| !groups::is_blank_key(s.group@) && min_records <= s.count;
    list::lemma_keep_agrees(items, p, worth_naming(min_records));
}

/// The opportunities: segments that are not blank and large enough.
/// `by_value` holds the places of the segments, those with the highest values
/// per record first.
#[verifier::loop_isolation(false)]
pub fn find_opportunities(
    lines: &Vec<SegmentLine>,
    by_value: &Vec<usize>,
    pm: &str,
    min_records: u64,
    top_insights: usize,
) -> (r: Vec<String>)
    requires
        are_places(by_value@, lines@.len() as int),
    ensures
        text::views(r@) == opportunity_texts(
            arranged(lines@, by_value@),
            pm@,
            min_records,
            top_insights as int,
        ),
{
    let ghost items = arranged(lines@, by_value@);
    let ghost p = worth_naming(min_records);
    let mut out: Vec<String> = Vec::new();
    let mut i: usize = 0;
    assert(text::views(out@) =~= opportunity_texts(
        items.take(0),
        pm@,
        min_records,
        top_insights as int,
    ));
    while i < by_value.len()
        invariant
            i <= by_value.len(),
            text::views(out@) == opportunity_texts(
                items.take(i as int),
                pm@,
                min_records,
                top_insights as int,
            ),
        decreases by_value.len() - i,
    {
        assert(items.take(i + 1).drop_last() =~= items.take(i as int));
        let ghost before = text::views(out@);
        let ghost kept = list::keep(items.take(i as int), p);
        let place: usize = by_value[i];
        let s = &lines[place];
        assert(items[i as int] == *s);
        if !is_blank_group_key(s.group.as_str()) && s.count >= min_records {
            assert(list::keep(items.take(i + 1), p) == kept.push(*s));
            if out.len() < top_insights {
                let mut line = cat5("`", s.group.as_str(), "` has high ", pm, " per record (");
                line.append(s.per_record.as_str());
                line.append(") across ");
                line.append(decimal_text(s.count).as_str());
                line.append(" records.");
                out.push(line);
                assert(text::views(out@) =~= before.push(line@));
            }
        } else {
            assert(list::keep(items.take(i + 1), p) == kept);
        }
        i += 1;
        assert(text::views(out@) =~= opportunity_texts(
            items.take(i as int),
            pm@,
            min_records,
            top_insights as int,
        ));
    }
    assert(items.take(items.len() as int) =~= items);
    out
}

/// The bit pattern of forty.
pub const FORTY: u64 = 0x4044_0000_0000_0000;

/// What can be done where nothing is measured.
pub open spec fn plain_opportunity_texts(
    top5_share: Num,
    share_text: Seq<char>,
    names: Seq<Seq<char>>,
    top_insights: int,
) -> Seq<Seq<char>> {
    let first = if top5_share.lt(Num { bits: FORTY }) {
        seq![
            "Low concentration tail opportunity: top 5 segments are "@ + share_text
                + "% of records."@,
        ]
    } else {
        Seq::empty()
    };
    if names.len() == 0 {
        first
    } else {
        first.push(
            "Prioritize the top segments first: "@ + scan::join(
                report::ticked(names).take(report::least(names.len() as int, top_insights)),
                ", "@,
            ) + "."@,
        )
    }
}

/// What can be done where nothing is measured.
pub fn plain_opportunities(
    top5_share: Num,
    share_text: &str,
    names: &Vec<String>,
    top_insights: usize,
) -> (r: Vec<String>)
    ensures
        text::views(r@) == plain_opportunity_texts(
            top5_share,
            share_text@,
            text::views(names@),
            top_insights as int,
        ),
{
    let mut out: Vec<String> = Vec::new();
    assert(text::views(out@) =~= Seq::empty());
    if top5_share.less(Num { bits: FORTY }) {
        say(
            &mut out,
            cat3(
                "Low concentration tail opportunity: top 5 segments are ",
                share_text,
                "% of records.",
            ),
        );
    }
    let ghost first = text::views(out@);
    assert(first =~= if top5_share.lt(Num { bits: FORTY }) {
        seq![
            "Low concentration tail opportunity: top 5 segments are "@ + share_text@
                + "% of records."@,
        ]
    } else {
        Seq::empty()
    });
    if names.len() > 0 {
        let mut quoted = tick_all(names);
        let ghost full = quoted@;
        assert(text::views(full).len() == names@.len());
        if quoted.len() > top_insights {
            quoted.truncate(top_insights);
        }
        assert forall|i: int| 0 <= i < quoted@.len() implies text::views(quoted@)[i]
            == report::ticked(text::views(names@))[i] by {
            assert(quoted@[i] == full[i]);
            assert(text::views(full)[i] == full[i]@);
        }
        assert(text::views(quoted@) =~= report::ticked(text::views(names@)).take(
            report::least(names@.len() as int, top_insights as int),
        ));
        let list = join_text(&quoted, ", ");
        say(&mut out, cat3("Prioritize the top segments first: ", list.as_str(), "."));
    }
    out
}

/// An alert on a share that reaches its threshold.
pub open spec fn share_alert(
    before: Seq<char>,
    share: Num,
    share_text: Seq<char>,
    middle: Seq<char>,
    threshold: Option<Num>,
    threshold_text: Seq<char>,
) -> Option<Seq<char>> {
    match threshold {
        Some(t) => if t.le(share) {
            Some(before + share_text + middle + threshold_text + "%)."@)
        } else {
            None
        },
        None => None,
    }
}

/// The alert on the records of the five largest segments.
pub fn concentration_alert(
    share: Num,
    share_text: &str,
    threshold: Option<Num>,
    threshold_text: &str,
) -> (r: Option<String>)
    ensures
        crate::planner::optional_text(r) == share_alert(
            "High concentration: top 5 segments account for "@,
            share,
            share_text@,
            "% of records (threshold "@,
            threshold,
            threshold_text@,
        ),
{
    match threshold {
        Some(t) => if t.at_most(share) {
            Some(
                cat5(
                    "High concentration: top 5 segments account for ",
                    share_text,
                    "% of records (threshold ",
                    threshold_text,
                    "%).",
                ),
            )
        } else {
            None
        },
        None => None,
    }
}

/// The alert on the records of blank segments.
pub fn blank_alert(
    share: Num,
    share_text: &str,
    threshold: Option<Num>,
    threshold_text: &str,
) -> (r: Option<String>)
    ensures
        crate::planner::optional_text(r) == share_alert(
            "High blank-segment share: "@,
            share,
            share_text@,
            "% of records are grouped as (blank) (threshold "@,
            threshold,
            threshold_text@,
        ),
{
    match threshold {
        Some(t) => if t.at_most(share) {
            Some(
                cat5(
                    "High blank-segment share: ",
                    share_text,
                    "% of records are grouped as (blank) (threshold ",
                    threshold_text,
                    "%).",
                ),
            )
        } else {
            None
        },
        None => None,
    }
}

/// The alert of a rule that is triggered.
pub fn rule_alert(rule: &str, actual: &str) -> (r: String)
    ensures
        r@ == "Rule triggered: "@ + text::trim(rule@) + " (actual="@ + actual@ + ")"@,
{
    cat5("Rule triggered: ", trimmed(rule).as_str(), " (actual=", actual, ")")
}

} // verus!
