//! The report on a fitted model.

use vstd::prelude::*;

use crate::dates;
use crate::dates::write_date;
use crate::digits;
use crate::digits::count_text;
use crate::market::OutlierDay;
use crate::num::Num;
use crate::report;
use crate::report::{say, write_page};
use crate::text;
use crate::text::{cat2, cat5};

verus! {

/// 1e-6.
pub const NEAR_ZERO: u64 = 0x3eb0c6f7a0b5ed8d;

/// The days among the first `n` whose residual is near zero.
pub open spec fn near_zero(days: Seq<OutlierDay>, n: int) -> int
    decreases n,
{
    if n <= 0 {
        0
    } else if days[n - 1].abs_residual.le(Num { bits: NEAR_ZERO }) {
        near_zero(days, n - 1) + 1
    } else {
        near_zero(days, n - 1)
    }
}

/// Whether four fifths of the days, rounded down, have a residual near zero.
pub open spec fn mostly_near_zero(days: Seq<OutlierDay>) -> bool {
    near_zero(days, days.len() as int) >= days.len() * 8 / 10
}

fn residuals_vanish(days: &Vec<OutlierDay>) -> (r: bool)
    ensures
        r == mostly_near_zero(days@),
{
    let mut count: usize = 0;
    let mut i: usize = 0;
    while i < days.len()
        invariant
            i <= days.len(),
            count <= i,
            count == near_zero(days@, i as int),
        decreases days.len() - i,
    {
        if days[i].abs_residual.at_most(Num { bits: NEAR_ZERO }) {
            count += 1;
        }
        i += 1;
    }
    count as u128 >= days.len() as u128 * 8 / 10
}

/// The residual of a day and its size as texts.
#[derive(Clone, Debug)]
pub struct OutlierTexts {
    pub residual: String,
    pub abs_residual: String,
}

/// A model to be reported: the variance that its first factors explain
/// together in percent, its sizes, the first variance ratios as a list, and
/// the days with the largest residuals.
#[derive(Clone, Debug)]
pub struct ModelSummary {
    pub first: String,
    pub first_two: String,
    pub first_three: String,
    pub observations: usize,
    pub assets: usize,
    pub k: usize,
    pub ratios: String,
    pub outliers: Vec<OutlierDay>,
    pub texts: Vec<OutlierTexts>,
}

/// A line for each outlier.
pub open spec fn write_outlier_days_lines(out: Seq<Seq<char>>, days: Seq<OutlierDay>, texts: Seq<OutlierTexts>, n: int) -> Seq<Seq<char>>
    decreases n,
{
    if n <= 0 {
        out
    } else {
        let out = write_outlier_days_lines(out, days, texts, n - 1);
        let x = days[n - 1];
        let t = texts[n - 1];
        let out = out.push("- "@ + dates::date_text(x.date) + " residual="@ + t.residual@ + " abs="@ + t.abs_residual@);
        out
    }
}

/// A line for each outlier.
#[verifier::loop_isolation(false)]
pub fn write_outlier_days(out: &mut Vec<String>, days: &Vec<OutlierDay>, texts: &Vec<OutlierTexts>)
    requires
        texts.len() == days.len(),
    ensures
        text::views(final(out)@) == write_outlier_days_lines(text::views(old(out)@), days@, texts@, days@.len() as int),
{
    let mut i: usize = 0;
    while i < days.len()
        invariant
            i <= days.len(),
            text::views(out@) == write_outlier_days_lines(text::views(old(out)@), days@, texts@, i as int),
        decreases days.len() - i,
    {
        let x = &days[i];
        let t = &texts[i];
        let mut line = cat5("- ", write_date(x.date).as_str(), " residual=", t.residual.as_str(), " abs=");
        line.append(t.abs_residual.as_str());
        say(out, line);
        i += 1;
    }
}

/// All sections of the report.
pub open spec fn write_model_report_lines(out: Seq<Seq<char>>, m: ModelSummary) -> Seq<Seq<char>> {
    let out = out.push("# FactorLens Report"@);
    let out = out.push(""@);
    let out = out.push("## Executive Interpretation"@);
    let out = out.push("- Factor 1 explains "@ + m.first@ + "% of variance; top 2 explain "@ + m.first_two@ + "%; top 3 explain "@ + m.first_three@ + "%."@);
    let out = if m.k >= m.assets {
        let out = out.push("- Warning: factors `k` is equal to or greater than number of assets, so PCA can nearly fully reconstruct returns."@);
        let out = out.push("- Result: residual-based outliers will be near zero and not informative."@);
        out
    } else {
        out
    };
    let out = if mostly_near_zero(m.outliers@) {
        let out = out.push("- Warning: most residual outliers are near zero; try fewer factors (e.g., `--k 1` or `--k 2`) for useful residual diagnostics."@);
        out
    } else {
        out
    };
    let out = out.push(""@);
    let out = out.push("## Model Summary"@);
    let out = out.push("- Observations: "@ + digits::decimal(m.observations as nat));
    let out = out.push("- Assets: "@ + digits::decimal(m.assets as nat));
    let out = out.push("- Factors (k): "@ + digits::decimal(m.k as nat));
    let out = out.push("- Top explained variance ratios: "@ + m.ratios@);
    let out = out.push(""@);
    let out = out.push("## Top Outlier Days (Residual)"@);
    let out = write_outlier_days_lines(out, m.outliers@, m.texts@, m.outliers@.len() as int);
    let out = out.push(""@);
    let out = out.push("## How To Make This Useful"@);
    let out = out.push("- Re-run with fewer factors than assets (example: `--k 1` or `--k 2`)."@);
    let out = out.push("- Use real portfolio weights/holdings instead of equal weights."@);
    let out = out.push("- For interpretable drivers, run known-factor regression mode with `factors regress` and a named `factors.csv` (for example: MKT/SMB/HML)."@);
    out
}

/// All sections of the report.
pub fn write_model_report(out: &mut Vec<String>, m: &ModelSummary)
    requires
        m.texts.len() == m.outliers.len(),
    ensures
        text::views(final(out)@) == write_model_report_lines(text::views(old(out)@), *m),
{
    say(out, "# FactorLens Report".to_owned());
    say(out, "".to_owned());
    say(out, "## Executive Interpretation".to_owned());
    let mut line = cat5("- Factor 1 explains ", m.first.as_str(), "% of variance; top 2 explain ", m.first_two.as_str(), "%; top 3 explain ");
    line.append(m.first_three.as_str());
    line.append("%.");
    say(out, line);
    if m.k >= m.assets {
        say(out, "- Warning: factors `k` is equal to or greater than number of assets, so PCA can nearly fully reconstruct returns.".to_owned());
        say(out, "- Result: residual-based outliers will be near zero and not informative.".to_owned());
    }
    if residuals_vanish(&m.outliers) {
        say(out, "- Warning: most residual outliers are near zero; try fewer factors (e.g., `--k 1` or `--k 2`) for useful residual diagnostics.".to_owned());
    }
    say(out, "".to_owned());
    say(out, "## Model Summary".to_owned());
    say(out, cat2("- Observations: ", count_text(m.observations).as_str()));
    say(out, cat2("- Assets: ", count_text(m.assets).as_str()));
    say(out, cat2("- Factors (k): ", count_text(m.k).as_str()));
    say(out, cat2("- Top explained variance ratios: ", m.ratios.as_str()));
    say(out, "".to_owned());
    say(out, "## Top Outlier Days (Residual)".to_owned());
    write_outlier_days(out, &m.outliers, &m.texts);
    say(out, "".to_owned());
    say(out, "## How To Make This Useful".to_owned());
    say(out, "- Re-run with fewer factors than assets (example: `--k 1` or `--k 2`).".to_owned());
    say(out, "- Use real portfolio weights/holdings instead of equal weights.".to_owned());
    say(out, "- For interpretable drivers, run known-factor regression mode with `factors regress` and a named `factors.csv` (for example: MKT/SMB/HML).".to_owned());
}

/// The report on a model as a page.
pub fn markdown_report(m: &ModelSummary) -> (r: String)
    requires
        m.texts.len() == m.outliers.len(),
    ensures
        r@ == report::page(write_model_report_lines(Seq::empty(), *m)),
{
    let mut out: Vec<String> = Vec::new();
    assert(text::views(out@) =~= Seq::empty());
    write_model_report(&mut out, m);
    write_page(&out)
}

} // verus!
