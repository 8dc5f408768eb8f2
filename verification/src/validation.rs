//! What a validated analysis is told to its user.

use vstd::prelude::*;

use crate::analysis;
use crate::analysis::name_percentiles;
use crate::args::AnalyzeArgs;
use crate::brief;
use crate::brief::write_filters;
use crate::dates;
use crate::dates::write_date;
use crate::digits;
use crate::digits::count_text;
use crate::periods::PeriodCompareConfig;
use crate::plan;
use crate::plan::{names_of_metrics, CheckedRequest};
use crate::report::say;
use crate::scan;
use crate::scan::join_text;
use crate::table;
use crate::text;
use crate::text::{cat2, cat3};

verus! {

/// Texts one after the other, or that there are none.
pub open spec fn listing(items: Seq<Seq<char>>) -> Seq<char> {
    if items.len() == 0 {
        "none"@
    } else {
        scan::join(items, ", "@)
    }
}

fn write_listing(items: &Vec<String>) -> (r: String)
    ensures
        r@ == listing(text::views(items@)),
{
    assert(text::views(items@).len() == items@.len());
    if items.len() == 0 {
        "none".to_owned()
    } else {
        join_text(items, ", ")
    }
}

/// What is said of the metrics.
pub open spec fn metrics_text(args: AnalyzeArgs, metrics: Seq<Seq<char>>) -> Seq<char> {
    if args.count_only {
        "- Metrics: disabled via --count-only"@
    } else if metrics.len() == 0 {
        "- Metrics: none detected"@
    } else {
        "- Metrics: "@ + scan::join(metrics, ", "@)
    }
}

/// What is said of the windows.
pub open spec fn windows_line(period: Option<PeriodCompareConfig>) -> Seq<char> {
    match period {
        Some(cfg) => "- Period compare: enabled ("@ + cfg.date_column@ + ", current="@
            + dates::date_text(cfg.windows.current_start) + ".."@ + dates::date_text(
            cfg.windows.current_end,
        ) + ", previous="@ + dates::date_text(cfg.windows.previous_start) + ".."@
            + dates::date_text(cfg.windows.previous_end) + ")"@,
        None => "- Period compare: disabled"@,
    }
}

fn write_windows_line(period: &Option<PeriodCompareConfig>) -> (r: String)
    ensures
        r@ == windows_line(*period),
{
    match period {
        Some(cfg) => {
            let mut out = cat3("- Period compare: enabled (", cfg.date_column.as_str(), ", current=");
            out.append(write_date(cfg.windows.current_start).as_str());
            out.append("..");
            out.append(write_date(cfg.windows.current_end).as_str());
            out.append(", previous=");
            out.append(write_date(cfg.windows.previous_start).as_str());
            out.append("..");
            out.append(write_date(cfg.windows.previous_end).as_str());
            out.append(")");
            out
        },
        None => "- Period compare: disabled".to_owned(),
    }
}

pub open spec fn or_else(x: Option<String>, other: Seq<char>) -> Seq<char> {
    match x {
        Some(t) => t@,
        None => other,
    }
}

/// The lines on an analysis that was checked and not run.
pub open spec fn validation_lines(
    input: Seq<char>,
    args: AnalyzeArgs,
    checked: CheckedRequest,
    period: Option<PeriodCompareConfig>,
    headers: nat,
) -> Seq<Seq<char>> {
    seq![
        "Analyze validation: OK"@,
        "- Input: "@ + input,
        "- Profile: "@ + or_else(args.profile, "(none)"@),
        "- Groups: "@ + scan::join(text::views(checked.groups@), ", "@),
        metrics_text(args, plan::metric_names(plan::metric_views(checked.metrics@))),
        "- Rank by: "@ + or_else(args.rank_by, "count/default"@),
        "- Aggregation: "@ + args.agg.label_text(),
        "- Percentiles: "@ + listing(analysis::percentile_names(args.percentiles@)),
        "- Filters: "@ + listing(brief::filter_texts(table::filter_views(checked.filters@))),
        "- Alert rules: "@ + digits::decimal(args.alert_rule@.len()),
        windows_line(period),
        "- Headers detected: "@ + digits::decimal(headers),
    ]
}

/// Tells of an analysis that was checked and not run.
pub fn write_validation(
    input: &str,
    args: &AnalyzeArgs,
    checked: &CheckedRequest,
    period: &Option<PeriodCompareConfig>,
    headers: usize,
) -> (r: Vec<String>)
    ensures
        text::views(r@) == validation_lines(input@, *args, *checked, *period, headers as nat),
{
    let metrics = names_of_metrics(&checked.metrics);
    let mut out: Vec<String> = Vec::new();
    assert(text::views(out@) =~= Seq::empty());
    say(&mut out, "Analyze validation: OK".to_owned());
    say(&mut out, cat2("- Input: ", input));
    match &args.profile {
        Some(p) => say(&mut out, cat2("- Profile: ", p.as_str())),
        None => say(&mut out, cat2("- Profile: ", "(none)")),
    }
    say(&mut out, cat2("- Groups: ", join_text(&checked.groups, ", ").as_str()));
    assert(text::views(metrics@).len() == metrics@.len());
    if args.count_only {
        say(&mut out, "- Metrics: disabled via --count-only".to_owned());
    } else if metrics.len() == 0 {
        say(&mut out, "- Metrics: none detected".to_owned());
    } else {
        say(&mut out, cat2("- Metrics: ", join_text(&metrics, ", ").as_str()));
    }
    match &args.rank_by {
        Some(m) => say(&mut out, cat2("- Rank by: ", m.as_str())),
        None => say(&mut out, cat2("- Rank by: ", "count/default")),
    }
    say(&mut out, cat2("- Aggregation: ", args.agg.label()));
    let percentiles = name_percentiles(&args.percentiles);
    say(&mut out, cat2("- Percentiles: ", write_listing(&percentiles).as_str()));
    let filters = write_filters(&checked.filters);
    say(&mut out, cat2("- Filters: ", write_listing(&filters).as_str()));
    say(&mut out, cat2("- Alert rules: ", count_text(args.alert_rule.len()).as_str()));
    say(&mut out, write_windows_line(period));
    say(&mut out, cat2("- Headers detected: ", count_text(headers).as_str()));
    assert(text::views(out@) =~= validation_lines(
        input@,
        *args,
        *checked,
        *period,
        headers as nat,
    ));
    out
}

} // verus!
