//! An analysis put together: its ranking, its alerts, its insights and its
//! brief. Figures come in as numbers to be compared and as texts.

use vstd::prelude::*;

use crate::alerts;
use crate::alerts::{
    alert_metric_value, eval_alert_rule, parse_alert_rule, AlertEvalContext, ParsedAlertRule,
    RuleView,
};
use crate::args::{AnalyzeArgs, PercentileKind};
use crate::brief;
use crate::brief::{
    blank_alert, concentration_alert, find_opportunities, find_risks, plain_opportunities,
    rule_alert, shown_metrics, write_filters, Brief, MetricCell, PeriodBrief, SegmentLine,
};
use crate::list;
use crate::num::Num;
use crate::order;
use crate::plan;
use crate::plan::{names_of_metrics, AnalysisPlan};
use crate::planner;
use crate::report;
use crate::report::lesser;
use crate::segments;
use crate::segments::{
    collect_words, count_words, largest_segment, rank_by_value, rank_by_value_ascending,
    rank_segments, top_five_records, top_word_counts, Grouping, Ranked, Segment,
};
use crate::table;
use crate::text;

verus! {

// ---------------------------------------------------------------------------
// Ranking
// ---------------------------------------------------------------------------

/// The segments to be ranked: each with its number of records and its value.
pub open spec fn ranked_items(segs: Seq<Segment>, values: Seq<Num>) -> Seq<Ranked> {
    Seq::new(
        segs.len(),
        |i: int|
            Ranked {
                segment: i as usize,
                count: segs[i].rows@.len() as u64,
                value: values[i],
            },
    )
}

/// Every item is one of the first `n` segments.
pub open spec fn within(items: Seq<Ranked>, n: int) -> bool {
    forall|i: int| 0 <= i < items.len() ==> 0 <= (#[trigger] items[i]).segment < n
}

/// The items are ranked segments: each has its segment's number of records.
pub open spec fn ranks(items: Seq<Ranked>, segs: Seq<Segment>) -> bool {
    &&& within(items, segs.len() as int)
    &&& forall|i: int|
        0 <= i < items.len() ==> (#[trigger] items[i]).count == segs[items[i].segment as int].rows@.len()
}

proof fn lemma_sorted_within(items: Seq<Ranked>, before: spec_fn(Ranked, Ranked) -> bool, n: int)
    requires
        within(items, n),
    ensures
        within(order::sorted(items, before), n),
        order::sorted(items, before).len() == items.len(),
{
    let s = order::sorted(items, before);
    order::lemma_sorted_permutation(items, before);
    s.to_multiset_ensures();
    items.to_multiset_ensures();
    assert forall|i: int| 0 <= i < s.len() implies 0 <= (#[trigger] s[i]).segment < n by {
        assert(s.to_multiset().count(s[i]) > 0);
        assert(items.contains(s[i]));
    }
    assert(s.to_multiset().len() == items.to_multiset().len());
}

proof fn lemma_sorted_ranks(
    items: Seq<Ranked>,
    before: spec_fn(Ranked, Ranked) -> bool,
    segs: Seq<Segment>,
)
    requires
        ranks(items, segs),
    ensures
        ranks(order::sorted(items, before), segs),
{
    let s = order::sorted(items, before);
    lemma_sorted_within(items, before, segs.len() as int);
    order::lemma_sorted_permutation(items, before);
    s.to_multiset_ensures();
    items.to_multiset_ensures();
    assert forall|i: int| 0 <= i < s.len() implies (#[trigger] s[i]).count
        == segs[s[i].segment as int].rows@.len() by {
        assert(s.to_multiset().count(s[i]) > 0);
        assert(items.contains(s[i]));
    }
}

/// Ranks the segments of an analysis: by their values where it ranks by a
/// metric, else by their records. Segments with too few records are left out.
pub fn rank_analysis(segs: &Vec<Segment>, values: &Vec<Num>, min_records: u64, by_value: bool) -> (r:
    Vec<Ranked>)
    requires
        values.len() == segs.len(),
    ensures
        r@ == segments::ranking(ranked_items(segs@, values@), min_records, by_value),
        ranks(r@, segs@),
{
    let mut items: Vec<Ranked> = Vec::new();
    let mut i: usize = 0;
    while i < segs.len()
        invariant
            i <= segs.len(),
            values.len() == segs.len(),
            items.len() == i,
            forall|k: int|
                0 <= k < i ==> #[trigger] items@[k] == ranked_items(segs@, values@)[k]
                    && items@[k].segment == k && items@[k].count == segs@[k].rows@.len(),
        decreases segs.len() - i,
    {
        items.push(Ranked { segment: i, count: segs[i].rows.len() as u64, value: values[i] });
        i += 1;
    }
    assert(items@ =~= ranked_items(segs@, values@));
    let r = rank_segments(&items, min_records, by_value);
    proof {
        let p = |x: Ranked| x.count >= min_records;
        let kept = segments::large_enough(items@, min_records);
        list::lemma_keep(items@, p);
        assert(ranks(kept, segs@));
        lemma_sorted_ranks(kept, |a: Ranked, b: Ranked| segments::higher(a, b), segs@);
        lemma_sorted_ranks(kept, |a: Ranked, b: Ranked| segments::larger(a, b), segs@);
    }
    r
}

// ---------------------------------------------------------------------------
// Alerts
// ---------------------------------------------------------------------------

/// The first `n` rules as they are read, or the first failure.
pub open spec fn read_rules(raws: Seq<Seq<char>>, n: int) -> Result<Seq<RuleView>, Seq<char>>
    decreases n,
{
    if n <= 0 {
        Ok(Seq::empty())
    } else {
        match read_rules(raws, n - 1) {
            Err(e) => Err(e),
            Ok(front) => match alerts::read_rule(raws[n - 1]) {
                Ok(rule) => Ok(front.push(rule)),
                Err(e) => Err(e),
            },
        }
    }
}

proof fn lemma_read_failure(raws: Seq<Seq<char>>, k: int, n: int)
    requires
        0 <= k <= n,
        read_rules(raws, k) is Err,
    ensures
        read_rules(raws, n) == read_rules(raws, k),
    decreases n,
{
    if k < n {
        lemma_read_failure(raws, k, n - 1);
    }
}

/// Rules in views.
pub open spec fn rule_views(rules: Seq<ParsedAlertRule>) -> Seq<RuleView> {
    rules.map_values(|r: ParsedAlertRule| r@)
}

/// Reads the alert rules of an analysis.
pub fn read_alert_rules(raws: &Vec<String>) -> (r: Result<Vec<ParsedAlertRule>, String>)
    ensures
        match r {
            Ok(rules) => read_rules(text::views(raws@), raws@.len() as int) == Ok::<
                Seq<RuleView>,
                Seq<char>,
            >(rule_views(rules@)) && rules@.len() == raws@.len(),
            Err(e) => read_rules(text::views(raws@), raws@.len() as int) == Err::<
                Seq<RuleView>,
                Seq<char>,
            >(e@),
        },
{
    let ghost all = text::views(raws@);
    let mut out: Vec<ParsedAlertRule> = Vec::new();
    let mut i: usize = 0;
    assert(rule_views(out@) =~= Seq::empty());
    while i < raws.len()
        invariant
            i <= raws.len(),
            all == text::views(raws@),
            out.len() == i,
            read_rules(all, i as int) == Ok::<Seq<RuleView>, Seq<char>>(rule_views(out@)),
        decreases raws.len() - i,
    {
        let ghost before = rule_views(out@);
        assert(all[i as int] == raws@[i as int]@);
        match parse_alert_rule(raws[i].as_str()) {
            Ok(rule) => {
                let ghost view = rule@;
                out.push(rule);
                assert(rule_views(out@) =~= before.push(view));
            },
            Err(e) => {
                proof {
                    lemma_read_failure(all, i + 1, raws@.len() as int);
                }
                return Err(e);
            },
        }
        i += 1;
    }
    Ok(out)
}

/// What a rule is judged by: its threshold, the distance of the figure to it,
/// and the figure as a text.
#[derive(Clone, Debug)]
pub struct RuleFigures {
    pub threshold: Num,
    pub distance: Num,
    pub actual: String,
}

/// The rule is triggered: it speaks of a figure that stands in its relation to
/// the threshold.
pub open spec fn is_triggered(rule: RuleView, ctx: AlertEvalContext, f: RuleFigures) -> bool {
    match alerts::figure(rule.metric, ctx) {
        Some(actual) => alerts::triggers(rule.op, actual, f.threshold, f.distance),
        None => false,
    }
}

/// Whether a rule is triggered.
pub fn judge_rule(rule: &ParsedAlertRule, ctx: &AlertEvalContext, f: &RuleFigures) -> (r: bool)
    ensures
        r == is_triggered(rule@, *ctx, *f),
{
    match alert_metric_value(rule.metric.as_str(), ctx) {
        Some(actual) => eval_alert_rule(rule.op, actual, f.threshold, f.distance),
        None => false,
    }
}

/// The figures of an analysis that alerts speak of.
#[derive(Clone, Debug)]
pub struct AlertFigures {
    pub context: AlertEvalContext,
    pub top5_share: String,
    pub top5_threshold: String,
    pub blank_share: String,
    pub blank_threshold: String,
    pub rules: Vec<RuleFigures>,
}

pub open spec fn listed(x: Option<Seq<char>>) -> Seq<Seq<char>> {
    match x {
        Some(t) => seq![t],
        None => Seq::empty(),
    }
}

/// The alerts on the two shares: on the five largest segments, then on blank ones.
pub open spec fn share_alerts(args: AnalyzeArgs, f: AlertFigures) -> Seq<Seq<char>> {
    listed(
        brief::share_alert(
            "High concentration: top 5 segments account for "@,
            f.context.top5_record_share_pct,
            f.top5_share@,
            "% of records (threshold "@,
            args.alert_top5_share,
            f.top5_threshold@,
        ),
    ) + listed(
        brief::share_alert(
            "High blank-segment share: "@,
            f.context.blank_share_pct,
            f.blank_share@,
            "% of records are grouped as (blank) (threshold "@,
            args.alert_blank_share,
            f.blank_threshold@,
        ),
    )
}

/// The alerts of an analysis: on the two shares, then those of the first `n`
/// rules that are triggered, in the order of the rules.
pub open spec fn all_alerts(
    args: AnalyzeArgs,
    rules: Seq<RuleView>,
    f: AlertFigures,
    n: int,
) -> Seq<Seq<char>>
    decreases n,
{
    if n <= 0 {
        share_alerts(args, f)
    } else {
        let front = all_alerts(args, rules, f, n - 1);
        if is_triggered(rules[n - 1], f.context, f.rules@[n - 1]) {
            front.push(
                "Rule triggered: "@ + text::trim(args.alert_rule@[n - 1]@) + " (actual="@
                    + f.rules@[n - 1].actual@ + ")"@,
            )
        } else {
            front
        }
    }
}

fn note(out: &mut Vec<String>, line: Option<String>)
    ensures
        text::views(final(out)@) == text::views(old(out)@) + listed(planner::optional_text(line)),
{
    let ghost before = text::views(out@);
    match line {
        Some(x) => {
            let ghost view = x@;
            out.push(x);
            assert(text::views(out@) =~= before + seq![view]);
        },
        None => {
            assert(text::views(out@) =~= before + Seq::empty());
        },
    }
}

/// The alerts of an analysis.
pub fn list_alerts(args: &AnalyzeArgs, rules: &Vec<ParsedAlertRule>, f: &AlertFigures) -> (r: Vec<
    String,
>)
    requires
        rules.len() == args.alert_rule.len(),
        f.rules.len() == args.alert_rule.len(),
    ensures
        text::views(r@) == all_alerts(*args, rule_views(rules@), *f, rules@.len() as int),
{
    let mut out: Vec<String> = Vec::new();
    assert(text::views(out@) =~= Seq::empty());
    note(
        &mut out,
        concentration_alert(
            f.context.top5_record_share_pct,
            f.top5_share.as_str(),
            args.alert_top5_share,
            f.top5_threshold.as_str(),
        ),
    );
    note(
        &mut out,
        blank_alert(
            f.context.blank_share_pct,
            f.blank_share.as_str(),
            args.alert_blank_share,
            f.blank_threshold.as_str(),
        ),
    );
    assert(text::views(out@) =~= share_alerts(*args, *f));
    let mut i: usize = 0;
    while i < rules.len()
        invariant
            i <= rules.len(),
            rules.len() == args.alert_rule.len(),
            f.rules.len() == args.alert_rule.len(),
            text::views(out@) == all_alerts(*args, rule_views(rules@), *f, i as int),
        decreases rules.len() - i,
    {
        assert(rule_views(rules@)[i as int] == rules@[i as int]@);
        if judge_rule(&rules[i], &f.context, &f.rules[i]) {
            let line = rule_alert(args.alert_rule[i].as_str(), f.rules[i].actual.as_str());
            let ghost before = text::views(out@);
            out.push(line);
            assert(text::views(out@) =~= before.push(line@));
        }
        i += 1;
    }
    out
}

// ---------------------------------------------------------------------------
// Insights
// ---------------------------------------------------------------------------

/// The places of values.
pub open spec fn valued(values: Seq<Num>) -> Seq<Ranked> {
    Seq::new(
        values.len(),
        |i: int| Ranked { segment: i as usize, count: 0, value: values[i] },
    )
}

fn as_items(values: &Vec<Num>) -> (r: Vec<Ranked>)
    ensures
        r@ == valued(values@),
{
    let mut items: Vec<Ranked> = Vec::new();
    let mut i: usize = 0;
    while i < values.len()
        invariant
            i <= values.len(),
            items.len() == i,
            forall|k: int| 0 <= k < i ==> #[trigger] items@[k] == valued(values@)[k],
        decreases values.len() - i,
    {
        items.push(Ranked { segment: i, count: 0, value: values[i] });
        i += 1;
    }
    assert(items@ =~= valued(values@));
    items
}

/// The places that items hold.
pub open spec fn places_of(items: Seq<Ranked>) -> Seq<usize> {
    items.map_values(|r: Ranked| r.segment)
}

fn list_places(items: &Vec<Ranked>) -> (r: Vec<usize>)
    ensures
        r@ == places_of(items@),
{
    let mut out: Vec<usize> = Vec::new();
    let mut k: usize = 0;
    while k < items.len()
        invariant
            k <= items.len(),
            out.len() == k,
            forall|j: int| 0 <= j < k ==> #[trigger] out@[j] == items@[j].segment,
        decreases items.len() - k,
    {
        out.push(items[k].segment);
        k += 1;
    }
    assert(out@ =~= places_of(items@));
    out
}

/// The places of values, those of the highest first; places of equal values
/// keep their order.
pub open spec fn highest_first(values: Seq<Num>) -> Seq<usize> {
    places_of(order::sorted(valued(values), |a: Ranked, b: Ranked| segments::higher(a, b)))
}

/// The places of values, those of the highest first.
pub fn order_by_value(values: &Vec<Num>) -> (r: Vec<usize>)
    ensures
        r@ == highest_first(values@),
        r@.len() == values@.len(),
        brief::are_places(r@, values@.len() as int),
{
    let items = as_items(values);
    proof {
        lemma_sorted_within(
            items@,
            |a: Ranked, b: Ranked| segments::higher(a, b),
            values@.len() as int,
        );
    }
    let sorted = rank_by_value(items);
    list_places(&sorted)
}

/// The places of values, those of the lowest first; places of equal values
/// keep their order.
pub open spec fn lowest_first(values: Seq<Num>) -> Seq<usize> {
    places_of(order::sorted(valued(values), |a: Ranked, b: Ranked| segments::lower(a, b)))
}

/// The places of values, those of the lowest first.
pub fn order_by_value_ascending(values: &Vec<Num>) -> (r: Vec<usize>)
    ensures
        r@ == lowest_first(values@),
        r@.len() == values@.len(),
        brief::are_places(r@, values@.len() as int),
{
    let items = as_items(values);
    proof {
        lemma_sorted_within(
            items@,
            |a: Ranked, b: Ranked| segments::lower(a, b),
            values@.len() as int,
        );
    }
    let sorted = rank_by_value_ascending(items);
    list_places(&sorted)
}

/// An order holds every place below `n` once.
pub open spec fn is_arrangement(order: Seq<usize>, n: int) -> bool {
    &&& order.len() == n
    &&& order.no_duplicates()
    &&& forall|i: int| 0 <= i < order.len() ==> 0 <= #[trigger] order[i] < n
}

proof fn lemma_arranged_by(values: Seq<Num>, before: spec_fn(Ranked, Ranked) -> bool, sign: int)
    requires
        values.len() <= usize::MAX,
        forall|i: int| 0 <= i < values.len() ==> !(#[trigger] values[i]).is_nan(),
        sign == 1 || sign == -1,
        forall|a: Ranked, b: Ranked|
            !a.value.is_nan() && !b.value.is_nan() ==> (#[trigger] before(a, b) <==> sign
                * a.value.rank() > sign * b.value.rank()),
    ensures
        ({
            let order = places_of(order::sorted(valued(values), before));
            &&& is_arrangement(order, values.len() as int)
            &&& forall|i: int, j: int|
                0 <= i < j < order.len() ==> sign * values[#[trigger] order[i] as int].rank() > sign
                    * values[#[trigger] order[j] as int].rank() || (values[order[i] as int].rank()
                    == values[order[j] as int].rank() && order[i] < order[j])
        }),
{
    let all = valued(values);
    let r = order::sorted(all, before);
    let order = places_of(r);
    let rank = |x: Ranked| sign * x.value.rank();
    let place = |x: Ranked| x.segment as int;
    assert forall|a: Ranked, b: Ranked| all.contains(a) && all.contains(b) implies (
    #[trigger] before(a, b) <==> rank(a) > rank(b)) by {
        let i = choose|i: int| 0 <= i < all.len() && all[i] == a;
        let j = choose|j: int| 0 <= j < all.len() && all[j] == b;
        assert(!values[i].is_nan() && !values[j].is_nan());
    }
    order::lemma_sorted_permutation(all, before);
    order::lemma_sorted_contains(all, before);
    order::lemma_sorted_falls(all, before, rank);
    order::lemma_ties_ascend(all, before, rank, place);
    assert forall|i: int| 0 <= i < r.len() implies (#[trigger] r[i]).segment < values.len()
        && r[i].value == values[r[i].segment as int] by {
        assert(r.contains(r[i]));
        let k = choose|k: int| 0 <= k < all.len() && all[k] == r[i];
        assert(all[k].segment == k);
    }
    assert(all.no_duplicates()) by {
        assert forall|i: int, j: int| 0 <= i < all.len() && 0 <= j < all.len() && i != j implies all[i]
            != all[j] by {
            assert(all[i].segment == i && all[j].segment == j);
        }
    }
    all.lemma_multiset_has_no_duplicates();
    r.lemma_multiset_has_no_duplicates_conv();
    assert forall|i: int, j: int| 0 <= i < order.len() && 0 <= j < order.len() && i != j implies order[i]
        != order[j] by {
        assert(r[i] != r[j]);
        assert(r.contains(r[i]) && r.contains(r[j]));
        let a = choose|a: int| 0 <= a < all.len() && all[a] == r[i];
        let b = choose|b: int| 0 <= b < all.len() && all[b] == r[j];
        assert(all[a].segment == a && all[b].segment == b);
    }
    assert forall|i: int, j: int| 0 <= i < j < order.len() implies sign * values[#[trigger] order[
        i] as int].rank() > sign * values[#[trigger] order[j] as int].rank() || (values[order[i] as int].rank()
        == values[order[j] as int].rank() && order[i] < order[j]) by {
        assert(rank(r[i]) >= rank(r[j]));
        assert(order[i] == r[i].segment && order[j] == r[j].segment);
        assert(r[i].value == values[order[i] as int] && r[j].value == values[order[j] as int]);
        if rank(r[i]) == rank(r[j]) {
            assert(place(r[i]) < place(r[j]));
        }
    }
}

/// Places by value hold every place once: the places of higher values come
/// first, or of lower ones where these are asked for, and of equal values the
/// places that come first. Every value is taken to be a number.
pub proof fn law_places_are_ordered_by_their_values(values: Seq<Num>)
    requires
        values.len() <= usize::MAX,
        forall|i: int| 0 <= i < values.len() ==> !(#[trigger] values[i]).is_nan(),
    ensures
        is_arrangement(highest_first(values), values.len() as int),
        forall|i: int, j: int|
            0 <= i < j < highest_first(values).len() ==> values[highest_first(values)[j] as int].lt(
                values[#[trigger] highest_first(values)[i] as int],
            ) || (!values[highest_first(values)[i] as int].lt(
                values[#[trigger] highest_first(values)[j] as int],
            ) && highest_first(values)[i] < highest_first(values)[j]),
        is_arrangement(lowest_first(values), values.len() as int),
        forall|i: int, j: int|
            0 <= i < j < lowest_first(values).len() ==> values[#[trigger] lowest_first(values)[
            i] as int].lt(values[lowest_first(values)[j] as int]) || (!values[#[trigger] lowest_first(
                values,
            )[j] as int].lt(values[lowest_first(values)[i] as int]) && lowest_first(values)[i]
                < lowest_first(values)[j]),
{
    lemma_arranged_by(values, |a: Ranked, b: Ranked| segments::higher(a, b), 1);
    lemma_arranged_by(values, |a: Ranked, b: Ranked| segments::lower(a, b), -1);
}

/// A ranked segment is ranked by its own value.
pub proof fn law_segments_are_ranked_by_their_own_values(
    segs: Seq<Segment>,
    values: Seq<Num>,
    min_records: u64,
    by_value: bool,
)
    requires
        segs.len() == values.len(),
        segs.len() <= usize::MAX,
    ensures
        forall|k: int|
            0 <= k < segments::ranking(
                ranked_items(segs, values),
                min_records,
                by_value,
            ).len() ==> ({
                let x = #[trigger] segments::ranking(
                    ranked_items(segs, values),
                    min_records,
                    by_value,
                )[k];
                &&& x.segment < segs.len()
                &&& x.value == values[x.segment as int]
                &&& x.count == segs[x.segment as int].rows@.len() as u64
            }),
{
    let items = ranked_items(segs, values);
    let kept = segments::large_enough(items, min_records);
    let r = segments::ranking(items, min_records, by_value);
    list::lemma_keep(items, |x: Ranked| x.count >= min_records);
    order::lemma_sorted_contains(kept, |a: Ranked, b: Ranked| segments::higher(a, b));
    order::lemma_sorted_contains(kept, |a: Ranked, b: Ranked| segments::larger(a, b));
    assert forall|k: int| 0 <= k < r.len() implies ({
        let x = #[trigger] r[k];
        &&& x.segment < segs.len()
        &&& x.value == values[x.segment as int]
        &&& x.count == segs[x.segment as int].rows@.len() as u64
    }) by {
        assert(r.contains(r[k]));
        assert(kept.contains(r[k]));
        let e = choose|e: int| 0 <= e < kept.len() && kept[e] == r[k];
        assert(items.contains(kept[e]));
        let i = choose|i: int| 0 <= i < items.len() && items[i] == r[k];
        assert(items[i].segment == i);
    }
}

/// The values at the places of an order.
pub open spec fn at_places(values: Seq<Num>, order: Seq<usize>) -> Seq<Num> {
    order.map_values(|i: usize| values[i as int])
}

fn take_places(values: &Vec<Num>, order: &Vec<usize>) -> (r: Vec<Num>)
    requires
        brief::are_places(order@, values@.len() as int),
    ensures
        r@ == at_places(values@, order@),
{
    let mut out: Vec<Num> = Vec::new();
    let mut i: usize = 0;
    while i < order.len()
        invariant
            i <= order.len(),
            brief::are_places(order@, values@.len() as int),
            out.len() == i,
            forall|k: int| 0 <= k < i ==> #[trigger] out@[k] == at_places(values@, order@)[k],
        decreases order.len() - i,
    {
        let place: usize = order[i];
        out.push(values[place]);
        i += 1;
    }
    assert(out@ =~= at_places(values@, order@));
    out
}

/// An order arranged anew: `again` holds places in it.
pub open spec fn rearranged(order: Seq<usize>, again: Seq<usize>) -> Seq<usize> {
    again.map_values(|i: usize| order[i as int])
}

/// An order with the places of the highest values first; places of equal
/// values keep the order.
pub open spec fn highest_of(order: Seq<usize>, values: Seq<Num>) -> Seq<usize> {
    rearranged(order, highest_first(at_places(values, order)))
}

/// Arranges an order with the places of the highest values first.
pub fn reorder_by_value(order: &Vec<usize>, values: &Vec<Num>) -> (r: Vec<usize>)
    requires
        brief::are_places(order@, values@.len() as int),
    ensures
        r@ == highest_of(order@, values@),
        r@.len() == order@.len(),
        brief::are_places(r@, values@.len() as int),
{
    let taken = take_places(values, order);
    let again = order_by_value(&taken);
    let mut out: Vec<usize> = Vec::new();
    let mut i: usize = 0;
    while i < again.len()
        invariant
            i <= again.len(),
            brief::are_places(again@, order@.len() as int),
            brief::are_places(order@, values@.len() as int),
            brief::are_places(out@, values@.len() as int),
            out.len() == i,
            forall|k: int| 0 <= k < i ==> #[trigger] out@[k] == rearranged(order@, again@)[k],
        decreases again.len() - i,
    {
        let place: usize = again[i];
        out.push(order[place]);
        i += 1;
    }
    assert(out@ =~= rearranged(order@, again@));
    out
}

/// The risks that are named: the segments with the largest shares of the
/// records, where insights are asked for.
pub open spec fn told_risks(
    args: AnalyzeArgs,
    primary: Option<Seq<char>>,
    lines: Seq<SegmentLine>,
    shares: Seq<Num>,
) -> Seq<Seq<char>> {
    if args.top_insights == 0 {
        Seq::empty()
    } else {
        brief::risk_texts(
            brief::arranged(lines, highest_first(shares)),
            primary,
            args.agg,
            report::least(shares.len() as int, args.top_insights as int),
        )
    }
}

/// The opportunities that are named where insights are asked for: segments
/// with high values per record, of equal values the ones with larger shares
/// first, and where nothing is measured what the records alone suggest.
pub open spec fn told_opportunities(
    args: AnalyzeArgs,
    primary: Option<Seq<char>>,
    lines: Seq<SegmentLine>,
    shares: Seq<Num>,
    per_record: Seq<Num>,
    alert: AlertFigures,
    top5_names: Seq<Seq<char>>,
) -> Seq<Seq<char>> {
    if args.top_insights == 0 {
        Seq::empty()
    } else {
        match primary {
            Some(pm) => brief::opportunity_texts(
                brief::arranged(lines, highest_of(highest_first(shares), per_record)),
                pm,
                args.opportunity_min_records,
                args.top_insights as int,
            ),
            None => brief::plain_opportunity_texts(
                alert.context.top5_record_share_pct,
                alert.top5_share@,
                top5_names,
                args.top_insights as int,
            ),
        }
    }
}

/// The risks and the opportunities of an analysis.
pub fn find_insights(
    args: &AnalyzeArgs,
    primary: &Option<String>,
    lines: &Vec<SegmentLine>,
    shares: &Vec<Num>,
    per_record: &Vec<Num>,
    alert: &AlertFigures,
    top5_names: &Vec<String>,
) -> (r: (Vec<String>, Vec<String>))
    requires
        shares.len() == lines.len(),
        per_record.len() == lines.len(),
    ensures
        text::views(r.0@) == told_risks(*args, planner::optional_text(*primary), lines@, shares@),
        text::views(r.1@) == told_opportunities(
            *args,
            planner::optional_text(*primary),
            lines@,
            shares@,
            per_record@,
            *alert,
            text::views(top5_names@),
        ),
{
    if args.top_insights == 0 {
        let risks: Vec<String> = Vec::new();
        let opportunities: Vec<String> = Vec::new();
        assert(text::views(risks@) =~= Seq::empty());
        assert(text::views(opportunities@) =~= Seq::empty());
        return (risks, opportunities);
    }
    let by_share = order_by_value(shares);
    let risks = find_risks(lines, &by_share, primary, args.agg, args.top_insights);
    let opportunities = match primary {
        Some(pm) => {
            let by_value = reorder_by_value(&by_share, per_record);
            find_opportunities(
                lines,
                &by_value,
                pm.as_str(),
                args.opportunity_min_records,
                args.top_insights,
            )
        },
        None => plain_opportunities(
            alert.context.top5_record_share_pct,
            alert.top5_share.as_str(),
            top5_names,
            args.top_insights,
        ),
    };
    (risks, opportunities)
}

/// The risks name the segments with the largest shares of the records, one line
/// each, the largest share first; no segment that is left out has a larger
/// share than one that is named. Every share is taken to be a number.
pub proof fn law_risks_name_the_largest_shares(
    args: AnalyzeArgs,
    primary: Option<Seq<char>>,
    lines: Seq<SegmentLine>,
    shares: Seq<Num>,
)
    requires
        shares.len() == lines.len(),
        shares.len() <= usize::MAX,
        forall|i: int| 0 <= i < shares.len() ==> !(#[trigger] shares[i]).is_nan(),
    ensures
        told_risks(args, primary, lines, shares).len() == (if lines.len() < args.top_insights {
            lines.len() as int
        } else {
            args.top_insights as int
        }),
        exists|order: Seq<usize>|
            is_arrangement(order, lines.len() as int) && (forall|i: int, j: int|
                0 <= i < j < order.len() ==> !shares[#[trigger] order[i] as int].lt(
                    shares[#[trigger] order[j] as int],
                )) && #[trigger] told_of(told_risks(args, primary, lines, shares), order, lines, primary, args.agg),
{
    let order = highest_first(shares);
    law_places_are_ordered_by_their_values(shares);
    let told = told_risks(args, primary, lines, shares);
    assert forall|i: int, j: int| 0 <= i < j < order.len() implies !shares[#[trigger] order[
        i] as int].lt(shares[#[trigger] order[j] as int]) by {}
    assert(told_of(told, order, lines, primary, args.agg));
}

/// The texts tell the lines at the first places of an order.
pub open spec fn told_of(
    told: Seq<Seq<char>>,
    order: Seq<usize>,
    lines: Seq<SegmentLine>,
    primary: Option<Seq<char>>,
    agg: crate::args::AggKind,
) -> bool {
    forall|k: int|
        0 <= k < told.len() ==> #[trigger] told[k] == brief::risk_text(
            lines[order[k] as int],
            primary,
            agg,
        )
}

proof fn lemma_rearranged(order: Seq<usize>, values: Seq<Num>)
    requires
        values.len() <= usize::MAX,
        is_arrangement(order, values.len() as int),
        forall|i: int| 0 <= i < values.len() ==> !(#[trigger] values[i]).is_nan(),
    ensures
        ({
            let again = highest_first(at_places(values, order));
            let r = highest_of(order, values);
            &&& is_arrangement(r, values.len() as int)
            &&& is_arrangement(again, values.len() as int)
            &&& forall|i: int| 0 <= i < r.len() ==> #[trigger] r[i] == order[again[i] as int]
            &&& forall|i: int, j: int|
                0 <= i < j < r.len() ==> values[r[j] as int].lt(values[#[trigger] r[i] as int]) || (
                !values[r[i] as int].lt(values[#[trigger] r[j] as int]) && again[i] < again[j])
        }),
{
    let taken = at_places(values, order);
    let again = highest_first(taken);
    let r = highest_of(order, values);
    assert forall|i: int| 0 <= i < taken.len() implies !(#[trigger] taken[i]).is_nan() by {
        assert(taken[i] == values[order[i] as int]);
    }
    law_places_are_ordered_by_their_values(taken);
    assert forall|i: int| 0 <= i < r.len() implies #[trigger] r[i] == order[again[i] as int] by {}
    assert forall|i: int, j: int| 0 <= i < r.len() && 0 <= j < r.len() && i != j implies r[i]
        != r[j] by {
        assert(again[i] != again[j]);
        assert(order[again[i] as int] != order[again[j] as int]);
    }
    assert forall|i: int, j: int| 0 <= i < j < r.len() implies values[r[j] as int].lt(
        values[#[trigger] r[i] as int],
    ) || (!values[r[i] as int].lt(values[#[trigger] r[j] as int]) && again[i] < again[j]) by {
        assert(taken[again[i] as int] == values[r[i] as int]);
        assert(taken[again[j] as int] == values[r[j] as int]);
        assert(again[i] == highest_first(taken)[i] && again[j] == highest_first(taken)[j]);
    }
}

/// The opportunities are told of the segments in the order of their values per
/// record, the highest first, and of equal values the ones with larger shares
/// of the records first. Every share and value is taken to be a number.
pub proof fn law_opportunities_name_the_highest_values(
    args: AnalyzeArgs,
    pm: Seq<char>,
    lines: Seq<SegmentLine>,
    shares: Seq<Num>,
    per_record: Seq<Num>,
    alert: AlertFigures,
    top5_names: Seq<Seq<char>>,
)
    requires
        args.top_insights > 0,
        shares.len() == lines.len(),
        per_record.len() == lines.len(),
        lines.len() <= usize::MAX,
        forall|i: int| 0 <= i < shares.len() ==> !(#[trigger] shares[i]).is_nan(),
        forall|i: int| 0 <= i < per_record.len() ==> !(#[trigger] per_record[i]).is_nan(),
    ensures
        exists|order: Seq<usize>|
            is_arrangement(order, lines.len() as int) && (forall|i: int, j: int|
                0 <= i < j < order.len() ==> per_record[order[j] as int].lt(
                    per_record[#[trigger] order[i] as int],
                ) || (!per_record[order[i] as int].lt(per_record[#[trigger] order[j] as int])
                    && !shares[order[i] as int].lt(shares[order[j] as int])))
                && told_opportunities(
                args,
                Some(pm),
                lines,
                shares,
                per_record,
                alert,
                top5_names,
            ) == brief::opportunity_texts(
                #[trigger] brief::arranged(lines, order),
                pm,
                args.opportunity_min_records,
                args.top_insights as int,
            ),
{
    let by_share = highest_first(shares);
    law_places_are_ordered_by_their_values(shares);
    lemma_rearranged(by_share, per_record);
    let order = highest_of(by_share, per_record);
    let again = highest_first(at_places(per_record, by_share));
    assert forall|i: int, j: int| 0 <= i < j < order.len() implies per_record[order[j] as int].lt(
        per_record[#[trigger] order[i] as int],
    ) || (!per_record[order[i] as int].lt(per_record[#[trigger] order[j] as int])
        && !shares[order[i] as int].lt(shares[order[j] as int])) by {
        assert(order[i] == by_share[again[i] as int] && order[j] == by_share[again[j] as int]);
    }
    assert(told_opportunities(args, Some(pm), lines, shares, per_record, alert, top5_names)
        == brief::opportunity_texts(
        brief::arranged(lines, order),
        pm,
        args.opportunity_min_records,
        args.top_insights as int,
    ));
}

/// Every rule that is triggered is told with the rule itself, in the order of
/// the rules and behind the alerts on shares, and no other rule is.
pub proof fn law_alerts_tell_the_triggered_rules(
    args: AnalyzeArgs,
    rules: Seq<RuleView>,
    f: AlertFigures,
    n: int,
)
    requires
        0 <= n <= rules.len(),
    ensures
        all_alerts(args, rules, f, n).len() == share_alerts(args, f).len() + triggered_below(
            rules,
            f,
            n,
        ).len(),
        forall|k: int|
            0 <= k < triggered_below(rules, f, n).len() ==> #[trigger] all_alerts(
                args,
                rules,
                f,
                n,
            )[share_alerts(args, f).len() + k] == "Rule triggered: "@ + text::trim(
                args.alert_rule@[triggered_below(rules, f, n)[k]]@,
            ) + " (actual="@ + f.rules@[triggered_below(rules, f, n)[k]].actual@ + ")"@,
        forall|k: int|
            0 <= k < share_alerts(args, f).len() ==> #[trigger] all_alerts(args, rules, f, n)[k]
                == share_alerts(args, f)[k],
    decreases n,
{
    let shares = share_alerts(args, f);
    let i = |k: int| k;
    if n > 0 {
        law_alerts_tell_the_triggered_rules(args, rules, f, n - 1);
        let front = all_alerts(args, rules, f, n - 1);
        let before = triggered_below(rules, f, n - 1);
        let all = all_alerts(args, rules, f, n);
        let here = triggered_below(rules, f, n);
        let places = Seq::new(n as nat, i);
        assert(places.drop_last() =~= Seq::new((n - 1) as nat, i));
        assert(places.last() == n - 1);
        assert forall|k: int| 0 <= k < here.len() implies #[trigger] all[shares.len() + k]
            == "Rule triggered: "@ + text::trim(args.alert_rule@[here[k]]@) + " (actual="@
            + f.rules@[here[k]].actual@ + ")"@ by {
            if k < before.len() {
                assert(here[k] == before[k]);
                assert(all[shares.len() + k] == front[shares.len() + k]);
            }
        }
        assert forall|k: int| 0 <= k < shares.len() implies #[trigger] all[k] == shares[k] by {
            assert(front[k] == shares[k]);
        }
    } else {
        assert(Seq::new(0, i) =~= Seq::<int>::empty());
    }
}

/// The places of the first `n` rules that are triggered.
pub open spec fn triggered_below(rules: Seq<RuleView>, f: AlertFigures, n: int) -> Seq<int> {
    list::keep(
        Seq::new(n as nat, |k: int| k),
        |k: int| is_triggered(rules[k], f.context, f.rules@[k]),
    )
}

/// An alert on a share is raised exactly where a threshold is given and the
/// share reaches it.
pub proof fn law_share_alerts_mark_reached_thresholds(args: AnalyzeArgs, f: AlertFigures)
    ensures
        share_alerts(args, f).len() == (if args.alert_top5_share is Some
            && args.alert_top5_share->0.le(f.context.top5_record_share_pct) {
            1int
        } else {
            0
        }) + (if args.alert_blank_share is Some && args.alert_blank_share->0.le(
            f.context.blank_share_pct,
        ) {
            1int
        } else {
            0
        }),
{
}

// ---------------------------------------------------------------------------
// The brief
// ---------------------------------------------------------------------------

/// The names of the first five ranked segments.
pub open spec fn leading_names(ranked: Seq<Ranked>, segs: Seq<Segment>) -> Seq<Seq<char>> {
    Seq::new(
        report::least(ranked.len() as int, 5) as nat,
        |i: int| segs[ranked[i].segment as int].key@,
    )
}

/// The names of the first five ranked segments.
pub fn top_five_names(ranked: &Vec<Ranked>, segs: &Vec<Segment>) -> (r: Vec<String>)
    requires
        within(ranked@, segs@.len() as int),
    ensures
        text::views(r@) == leading_names(ranked@, segs@),
{
    let n: usize = lesser(ranked.len(), 5);
    let mut out: Vec<String> = Vec::new();
    let mut i: usize = 0;
    while i < n
        invariant
            i <= n <= ranked.len(),
            within(ranked@, segs@.len() as int),
            out.len() == i,
            forall|k: int|
                0 <= k < i ==> (#[trigger] out@[k])@ == segs@[ranked@[k].segment as int].key@,
        decreases n - i,
    {
        let place: usize = ranked[i].segment;
        out.push(segs[place].key.clone());
        i += 1;
    }
    assert(text::views(out@) =~= leading_names(ranked@, segs@));
    out
}

/// The percentiles by name.
pub open spec fn percentile_names(kinds: Seq<PercentileKind>) -> Seq<Seq<char>> {
    kinds.map_values(|k: PercentileKind| k.label_text())
}

/// The percentiles by name.
pub fn name_percentiles(kinds: &Vec<PercentileKind>) -> (r: Vec<String>)
    ensures
        text::views(r@) == percentile_names(kinds@),
{
    let mut out: Vec<String> = Vec::new();
    let mut i: usize = 0;
    while i < kinds.len()
        invariant
            i <= kinds.len(),
            out.len() == i,
            forall|k: int| 0 <= k < i ==> (#[trigger] out@[k])@ == kinds@[k].label_text(),
        decreases kinds.len() - i,
    {
        out.push(kinds[i].label().to_owned());
        i += 1;
    }
    assert(text::views(out@) =~= percentile_names(kinds@));
    out
}

/// Two lines say the same.
pub open spec fn same_line(a: SegmentLine, b: SegmentLine) -> bool {
    &&& a.group == b.group
    &&& a.count == b.count
    &&& a.share == b.share
    &&& a.primary == b.primary
    &&& a.primary_share == b.primary_share
    &&& a.per_record == b.per_record
    &&& a.cells@ == b.cells@
}

fn copy_line(s: &SegmentLine) -> (r: SegmentLine)
    ensures
        same_line(r, *s),
{
    let mut cells: Vec<MetricCell> = Vec::new();
    let mut i: usize = 0;
    while i < s.cells.len()
        invariant
            i <= s.cells.len(),
            cells.len() == i,
            forall|k: int| 0 <= k < i ==> #[trigger] cells@[k] == s.cells@[k],
        decreases s.cells.len() - i,
    {
        let c = &s.cells[i];
        cells.push(
            MetricCell { metric: c.metric.clone(), value: c.value.clone(), share: c.share.clone() },
        );
        i += 1;
    }
    assert(cells@ =~= s.cells@);
    SegmentLine {
        group: s.group.clone(),
        count: s.count,
        share: s.share.clone(),
        primary: s.primary.clone(),
        primary_share: s.primary_share.clone(),
        per_record: s.per_record.clone(),
        cells,
    }
}

/// The words of the counted rows with how often they occur, the most frequent
/// first; `counts` are all words with how often they occur.
pub open spec fn are_counts(
    counts: Seq<(String, u64)>,
    plan: AnalysisPlan,
    rows: Seq<Vec<String>>,
    picked: Seq<usize>,
) -> bool {
    let words = segments::words_in_rows(plan, rows, picked, picked.len() as int);
    exists|segs: Seq<Segment>|
        segments::gathers(segs, words, words.len() as int) && segments::tally_views(counts)
            == #[trigger] segments::tally(segs)
}

/// The first of the counts in order, `n` at most.
pub open spec fn leading_counts(counts: Seq<(String, u64)>, n: int) -> Seq<(String, u64)> {
    let all = order::sorted(
        counts,
        |a: (String, u64), b: (String, u64)| segments::more_frequent(a, b),
    );
    if all.len() > n {
        all.take(n)
    } else {
        all
    }
}

/// The words of the counted rows that occur most often, twelve at most.
pub fn frequent_words(plan: &AnalysisPlan, rows: &Vec<Vec<String>>, picked: &Vec<usize>) -> (r: Vec<
    (String, u64),
>)
    requires
        crate::plan::plan_in_range(*plan),
        forall|i: int| 0 <= i < picked@.len() ==> #[trigger] picked@[i] < rows@.len(),
    ensures
        exists|counts: Seq<(String, u64)>| #[trigger]
            are_counts(counts, *plan, rows@, picked@) && r@ == leading_counts(counts, 12),
{
    let words = collect_words(plan, rows, picked);
    let counts = count_words(&words);
    let ghost all = counts@;
    assert(text::views(words@).len() == words@.len());
    assert(are_counts(all, *plan, rows@, picked@));
    let r = top_word_counts(counts, 12);
    assert(r@ == leading_counts(all, 12));
    r
}

/// What an analysis has measured, written out.
#[derive(Debug)]
pub struct Measured {
    /// A line for each ranked segment, with its share of the records and its
    /// value per record.
    pub lines: Vec<SegmentLine>,
    pub shares: Vec<Num>,
    pub per_record: Vec<Num>,
    pub alerts: AlertFigures,
    pub top5_primary: String,
    pub top5_primary_share: String,
    pub top5_primary_average: String,
    pub period: Option<PeriodBrief>,
}

fn copy_text(x: &Option<String>) -> (r: Option<String>)
    ensures
        r == *x,
{
    match x {
        Some(t) => Some(t.clone()),
        None => None,
    }
}

/// The first metric.
pub open spec fn first_metric(metrics: Seq<Seq<char>>) -> Option<Seq<char>> {
    if metrics.len() > 0 {
        Some(metrics[0])
    } else {
        None
    }
}

/// The metrics that an analysis shows: its own, and a column for each of their
/// percentiles.
pub open spec fn shown_columns(metrics: Seq<Seq<char>>, kinds: Seq<PercentileKind>) -> Seq<
    Seq<char>,
> {
    metrics + brief::percentile_columns(metrics, kinds, metrics.len() as int)
}

/// There is a line for each ranked segment, with its key, its number of records
/// and a cell for each of the metrics shown.
pub open spec fn lines_tell(
    lines: Seq<SegmentLine>,
    ranked: Seq<Ranked>,
    segs: Seq<Segment>,
    shown: Seq<Seq<char>>,
) -> bool {
    &&& lines.len() == ranked.len()
    &&& forall|i: int|
        0 <= i < lines.len() ==> (#[trigger] lines[i]).group@ == segs[ranked[i].segment as int].key@
            && lines[i].count == ranked[i].count && lines[i].cells@.map_values(
            |c: MetricCell| c.metric@,
        ) == shown
}

/// The brief of an analysis. `ranked` are the ranked segments, `rules` the
/// alert rules as they are read.
pub fn compose_brief(
    input: &str,
    args: &AnalyzeArgs,
    plan: &AnalysisPlan,
    rows: &Vec<Vec<String>>,
    grouping: &Grouping,
    ranked: &Vec<Ranked>,
    rules: &Vec<ParsedAlertRule>,
    m: Measured,
) -> (b: Brief)
    requires
        crate::plan::plan_in_range(*plan),
        forall|i: int|
            0 <= i < grouping.rows@.len() ==> #[trigger] grouping.rows@[i] < rows@.len(),
        ranks(ranked@, grouping.segments@),
        segments::records_of(ranked@, report::least(ranked@.len() as int, 5)) <= u64::MAX,
        lines_tell(
            m.lines@,
            ranked@,
            grouping.segments@,
            shown_columns(plan::metric_names(plan::metric_views(plan.metrics@)), args.percentiles@),
        ),
        m.shares.len() == ranked.len(),
        m.per_record.len() == ranked.len(),
        rules.len() == args.alert_rule.len(),
        m.alerts.rules.len() == args.alert_rule.len(),
    ensures
        b.input@ == input@,
        b.records == grouping.rows@.len(),
        b.segments == ranked@.len(),
        text::views(b.groups@) == text::views(plan.groups@),
        b.profile == args.profile,
        text::views(b.filters@) == brief::filter_texts(table::filter_views(plan.filters@)),
        b.rank == plan.rank_metric,
        b.exclude_blank_groups == args.exclude_blank_groups,
        b.top == args.top,
        b.top_insights == args.top_insights,
        b.opportunity_min_records == args.opportunity_min_records,
        b.min_records == args.min_records,
        b.count_only == args.count_only,
        b.agg == args.agg,
        text::views(b.percentiles@) == percentile_names(args.percentiles@),
        b.normalize_text_groups == args.normalize_text_groups,
        text::views(b.metrics@) == plan::metric_names(plan::metric_views(plan.metrics@)),
        text::views(b.display_metrics@) == shown_columns(
            text::views(b.metrics@),
            args.percentiles@,
        ),
        planner::optional_text(b.primary) == first_metric(text::views(b.metrics@)),
        match (b.largest, segments::reported_largest(ranked@, grouping.segments@)) {
            (Some(line), Some(i)) => same_line(line, m.lines@[i]),
            (None, None) => true,
            _ => false,
        },
        b.top5_share == m.alerts.top5_share,
        b.top5_count == segments::records_of(ranked@, report::least(ranked@.len() as int, 5)),
        text::views(b.top5_names@) == leading_names(ranked@, grouping.segments@),
        b.top5_primary == m.top5_primary,
        b.top5_primary_share == m.top5_primary_share,
        b.top5_primary_average == m.top5_primary_average,
        b.period == m.period,
        text::views(b.alerts@) == all_alerts(
            *args,
            rule_views(rules@),
            m.alerts,
            rules@.len() as int,
        ),
        if args.word_freq {
            exists|counts: Seq<(String, u64)>| #[trigger]
                are_counts(counts, *plan, rows@, grouping.rows@) && b.top_words@ == leading_counts(
                    counts,
                    12,
                )
        } else {
            b.top_words@.len() == 0
        },
        b.rows@ == m.lines@,
        lines_tell(b.rows@, ranked@, grouping.segments@, text::views(b.display_metrics@)),
        text::views(b.risks@) == told_risks(
            *args,
            planner::optional_text(b.primary),
            m.lines@,
            m.shares@,
        ),
        text::views(b.opportunities@) == told_opportunities(
            *args,
            planner::optional_text(b.primary),
            m.lines@,
            m.shares@,
            m.per_record@,
            m.alerts,
            text::views(b.top5_names@),
        ),
{
    let metrics = names_of_metrics(&plan.metrics);
    let primary: Option<String> = if metrics.len() > 0 {
        Some(metrics[0].clone())
    } else {
        None
    };
    let display_metrics = shown_metrics(&metrics, &args.percentiles);
    let largest = match largest_segment(ranked, &grouping.segments) {
        Some(i) => Some(copy_line(&m.lines[i])),
        None => None,
    };
    let top5_names = top_five_names(ranked, &grouping.segments);
    let top5_count: u64 = top_five_records(ranked) as u64;
    let alerts = list_alerts(args, rules, &m.alerts);
    let (risks, opportunities) = find_insights(
        args,
        &primary,
        &m.lines,
        &m.shares,
        &m.per_record,
        &m.alerts,
        &top5_names,
    );
    let top_words: Vec<(String, u64)> = if args.word_freq {
        frequent_words(plan, rows, &grouping.rows)
    } else {
        Vec::new()
    };
    Brief {
        input: input.to_owned(),
        records: grouping.rows.len() as u64,
        segments: ranked.len(),
        groups: text::copy_all(&plan.groups),
        profile: copy_text(&args.profile),
        filters: write_filters(&plan.filters),
        exclude_blank_groups: args.exclude_blank_groups,
        rank: copy_text(&plan.rank_metric),
        top: args.top,
        top_insights: args.top_insights,
        opportunity_min_records: args.opportunity_min_records,
        min_records: args.min_records,
        count_only: args.count_only,
        agg: args.agg,
        percentiles: name_percentiles(&args.percentiles),
        normalize_text_groups: args.normalize_text_groups,
        metrics,
        display_metrics,
        primary,
        largest,
        top5_share: m.alerts.top5_share,
        top5_count,
        top5_names,
        top5_primary: m.top5_primary,
        top5_primary_share: m.top5_primary_share,
        top5_primary_average: m.top5_primary_average,
        period: m.period,
        alerts,
        top_words,
        rows: m.lines,
        risks,
        opportunities,
    }
}

} // verus!
