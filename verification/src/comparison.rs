//! The comparison of two analyses, segment by segment.

use vstd::prelude::*;

use crate::artifacts;
use crate::artifacts::{find_text, find_whole};
use crate::digits;
use crate::digits::{decimal_text, shift_text};
use crate::investigation::InvestigationMover;
use crate::json::Json;
use crate::order;
use crate::order::sort_by;
use crate::report;
use crate::report::{say, write_page};
use crate::scan;
use crate::scan::replaced_char;
use crate::text;
use crate::text::{cat2, cat5};

verus! {

/// The metric of a comparison: that of the new analysis, else that of the
/// base, else a fixed name.
pub open spec fn compared_by(base: Json, new: Json) -> Seq<char> {
    match artifacts::text_under(new, "primary_metric"@) {
        Some(m) => m,
        None => match artifacts::text_under(base, "primary_metric"@) {
            Some(m) => m,
            None => "primary_metric"@,
        },
    }
}

/// The metric by which two analyses are compared, whether or not they name one.
pub fn comparison_metric(base: &Json, new: &Json) -> (r: String)
    ensures
        r@ == compared_by(*base, *new),
{
    match find_text(new, "primary_metric") {
        Some(m) => m.to_owned(),
        None => match find_text(base, "primary_metric") {
            Some(m) => m.to_owned(),
            None => "primary_metric".to_owned(),
        },
    }
}

/// `a` changed its share more than `b` did.
pub open spec fn shifts_more(a: InvestigationMover, b: InvestigationMover) -> bool {
    b.delta_share_pp.abs_spec().lt(a.delta_share_pp.abs_spec())
}

/// Larger changes of share come first.
pub open spec fn larger_shift() -> spec_fn(InvestigationMover, InvestigationMover) -> bool {
    |a: InvestigationMover, b: InvestigationMover| shifts_more(a, b)
}

/// The movers with the largest changes of share, the largest first.
pub open spec fn leading_movers(
    movers: Seq<InvestigationMover>,
    limit: int,
) -> Seq<InvestigationMover> {
    let sorted = order::sorted(movers, larger_shift());
    sorted.take(report::least(sorted.len() as int, limit))
}

/// Keeps the `limit` movers with the largest changes of share, the largest
/// first; equal changes keep their order.
pub fn rank_by_share_change(movers: Vec<InvestigationMover>, limit: usize) -> (r: Vec<
    InvestigationMover,
>)
    ensures
        r@ == leading_movers(movers@, limit as int),
{
    let precedes = |a: &InvestigationMover, b: &InvestigationMover| -> (x: bool)
        ensures
            x == shifts_more(*a, *b),
        { b.delta_share_pp.abs().less(a.delta_share_pp.abs()) };
    let mut sorted = sort_by(movers, precedes, Ghost(larger_shift()));
    if sorted.len() > limit {
        sorted.truncate(limit);
    }
    sorted
}

/// The movers that are listed are those whose shares changed most, whether they
/// grew or shrank, the largest change first: none that is left out changed its
/// share more than one that is kept, and equal changes keep their order. Every
/// change is taken to be a number.
pub proof fn law_leading_movers_shift_most(movers: Seq<InvestigationMover>, limit: int)
    requires
        0 <= limit,
        forall|i: int| 0 <= i < movers.len() ==> !(#[trigger] movers[i]).delta_share_pp.is_nan(),
    ensures
        order::takes_highest(
            leading_movers(movers, limit),
            movers,
            |m: InvestigationMover| m.delta_share_pp.abs_spec().rank(),
            limit,
        ),
        order::ties_stay(
            leading_movers(movers, limit),
            movers,
            |m: InvestigationMover| m.delta_share_pp.abs_spec().rank(),
        ),
        forall|i: int, j: int|
            0 <= i < j < leading_movers(movers, limit).len() ==> !(#[trigger] leading_movers(
                movers,
                limit,
            )[i]).delta_share_pp.abs_spec().lt(
                (#[trigger] leading_movers(movers, limit)[j]).delta_share_pp.abs_spec(),
            ),
{
    let rank = |m: InvestigationMover| m.delta_share_pp.abs_spec().rank();
    let before = larger_shift();
    assert forall|a: InvestigationMover, b: InvestigationMover|
        movers.contains(a) && movers.contains(b) implies (#[trigger] before(a, b) <==> rank(a)
        > rank(b)) by {}
    order::lemma_sorted_permutation(movers, before);
    order::lemma_takes_highest(movers, before, rank, limit);
    order::lemma_ties_stay(movers, before, rank, report::least(movers.len() as int, limit));
    let kept = leading_movers(movers, limit);
    assert forall|i: int, j: int| 0 <= i < j < kept.len() implies !(
    #[trigger] kept[i]).delta_share_pp.abs_spec().lt((#[trigger] kept[j]).delta_share_pp.abs_spec()) by {
        assert(rank(kept[i]) >= rank(kept[j]));
    }
}

/// The sizes of an analysis.
#[derive(Clone, Copy, Debug)]
pub struct AnalysisSize {
    pub records: u64,
    pub segments: u64,
}

/// The sizes that an analysis states; zero where it states none.
pub fn analysis_size(v: &Json) -> (r: AnalysisSize)
    ensures
        r.records == artifacts::whole_under(*v, "records"@),
        r.segments == artifacts::whole_under(*v, "segments"@),
{
    AnalysisSize { records: find_whole(v, "records"), segments: find_whole(v, "segments") }
}

/// The figures of a mover as texts.
#[derive(Clone, Debug)]
pub struct ShiftTexts {
    pub base_share: String,
    pub new_share: String,
    pub delta_share: String,
    pub base_value: String,
    pub new_value: String,
    pub delta_value: String,
}

/// A comparison to be written: the two analyses, the concentrations in percent
/// as texts, and the movers that are shown, each with its texts.
#[derive(Clone, Debug)]
pub struct CompareBrief {
    pub base: String,
    pub new: String,
    pub base_size: AnalysisSize,
    pub new_size: AnalysisSize,
    pub metric: String,
    pub base_top5: String,
    pub new_top5: String,
    pub top5_delta: String,
    pub movers: Vec<InvestigationMover>,
    pub texts: Vec<ShiftTexts>,
}

/// A row for each mover.
pub open spec fn write_shifts_lines(out: Seq<Seq<char>>, movers: Seq<InvestigationMover>, texts: Seq<ShiftTexts>, n: int) -> Seq<Seq<char>>
    decreases n,
{
    if n <= 0 {
        out
    } else {
        let out = write_shifts_lines(out, movers, texts, n - 1);
        let x = movers[n - 1];
        let t = texts[n - 1];
        let out = out.push("| "@ + scan::replace_char(x.segment@, '|', "\\|"@) + " | "@ + digits::decimal(x.base_records as nat) + " | "@ + digits::decimal(x.new_records as nat) + " | "@ + t.base_share@ + "% | "@ + t.new_share@ + "% | "@ + t.delta_share@ + " | "@ + t.base_value@ + " | "@ + t.new_value@ + " | "@ + t.delta_value@ + " |"@);
        out
    }
}

/// A row for each mover.
#[verifier::loop_isolation(false)]
pub fn write_shifts(out: &mut Vec<String>, movers: &Vec<InvestigationMover>, texts: &Vec<ShiftTexts>)
    requires
        texts.len() == movers.len(),
    ensures
        text::views(final(out)@) == write_shifts_lines(text::views(old(out)@), movers@, texts@, movers@.len() as int),
{
    let mut i: usize = 0;
    while i < movers.len()
        invariant
            i <= movers.len(),
            text::views(out@) == write_shifts_lines(text::views(old(out)@), movers@, texts@, i as int),
        decreases movers.len() - i,
    {
        let x = &movers[i];
        let t = &texts[i];
        let mut line = cat5("| ", replaced_char(x.segment.as_str(), '|', "\\|").as_str(), " | ", decimal_text(x.base_records).as_str(), " | ");
        line.append(decimal_text(x.new_records).as_str());
        line.append(" | ");
        line.append(t.base_share.as_str());
        line.append("% | ");
        line.append(t.new_share.as_str());
        line.append("% | ");
        line.append(t.delta_share.as_str());
        line.append(" | ");
        line.append(t.base_value.as_str());
        line.append(" | ");
        line.append(t.new_value.as_str());
        line.append(" | ");
        line.append(t.delta_value.as_str());
        line.append(" |");
        say(out, line);
        i += 1;
    }
}

/// All sections of a comparison.
pub open spec fn write_comparison_lines(out: Seq<Seq<char>>, b: CompareBrief) -> Seq<Seq<char>> {
    let out = out.push("# Analysis Comparison"@);
    let out = out.push(""@);
    let out = out.push("- Base: "@ + b.base@);
    let out = out.push("- New: "@ + b.new@);
    let out = out.push("- Base records: "@ + digits::decimal(b.base_size.records as nat));
    let out = out.push("- New records: "@ + digits::decimal(b.new_size.records as nat));
    let out = out.push("- Base segments: "@ + digits::decimal(b.base_size.segments as nat));
    let out = out.push("- New segments: "@ + digits::decimal(b.new_size.segments as nat));
    let out = out.push(""@);
    let out = out.push("## Executive Delta"@);
    let out = out.push(""@);
    let out = out.push("- Top-5 concentration changed from "@ + b.base_top5@ + "% to "@ + b.new_top5@ + "% ("@ + b.top5_delta@ + " pp)."@);
    let out = out.push("- Segment count changed from "@ + digits::decimal(b.base_size.segments as nat) + " to "@ + digits::decimal(b.new_size.segments as nat) + " ("@ + digits::with_sign(digits::as_signed(b.new_size.segments) - digits::as_signed(b.base_size.segments)) + ")."@);
    let out = out.push(""@);
    let out = out.push("## Biggest Movers (by record share)"@);
    let out = out.push(""@);
    let out = out.push("| Segment | Base Records | New Records | Base Share | New Share | Delta Share (pp) | Base "@ + b.metric@ + " | New "@ + b.metric@ + " | Delta "@ + b.metric@ + " |"@);
    let out = out.push("|---|---:|---:|---:|---:|---:|---:|---:|---:|"@);
    let out = write_shifts_lines(out, b.movers@, b.texts@, b.movers@.len() as int);
    out
}

/// All sections of a comparison.
pub fn write_comparison(out: &mut Vec<String>, b: &CompareBrief)
    requires
        b.texts.len() == b.movers.len(),
    ensures
        text::views(final(out)@) == write_comparison_lines(text::views(old(out)@), *b),
{
    say(out, "# Analysis Comparison".to_owned());
    say(out, "".to_owned());
    say(out, cat2("- Base: ", b.base.as_str()));
    say(out, cat2("- New: ", b.new.as_str()));
    say(out, cat2("- Base records: ", decimal_text(b.base_size.records).as_str()));
    say(out, cat2("- New records: ", decimal_text(b.new_size.records).as_str()));
    say(out, cat2("- Base segments: ", decimal_text(b.base_size.segments).as_str()));
    say(out, cat2("- New segments: ", decimal_text(b.new_size.segments).as_str()));
    say(out, "".to_owned());
    say(out, "## Executive Delta".to_owned());
    say(out, "".to_owned());
    let mut line = cat5("- Top-5 concentration changed from ", b.base_top5.as_str(), "% to ", b.new_top5.as_str(), "% (");
    line.append(b.top5_delta.as_str());
    line.append(" pp).");
    say(out, line);
    let mut line = cat5("- Segment count changed from ", decimal_text(b.base_size.segments).as_str(), " to ", decimal_text(b.new_size.segments).as_str(), " (");
    line.append(shift_text(b.new_size.segments, b.base_size.segments).as_str());
    line.append(").");
    say(out, line);
    say(out, "".to_owned());
    say(out, "## Biggest Movers (by record share)".to_owned());
    say(out, "".to_owned());
    let mut line = cat5("| Segment | Base Records | New Records | Base Share | New Share | Delta Share (pp) | Base ", b.metric.as_str(), " | New ", b.metric.as_str(), " | Delta ");
    line.append(b.metric.as_str());
    line.append(" |");
    say(out, line);
    say(out, "|---|---:|---:|---:|---:|---:|---:|---:|---:|".to_owned());
    write_shifts(out, &b.movers, &b.texts);
}

/// The comparison as a page.
pub fn render_comparison(b: &CompareBrief) -> (r: String)
    requires
        b.texts.len() == b.movers.len(),
    ensures
        r@ == report::page(write_comparison_lines(Seq::empty(), *b)),
{
    let mut out: Vec<String> = Vec::new();
    assert(text::views(out@) =~= Seq::empty());
    write_comparison(&mut out, b);
    write_page(&out)
}

} // verus!
