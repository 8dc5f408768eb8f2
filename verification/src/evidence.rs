//! The evidence that a written analysis offers for an answer.

use vstd::prelude::*;

use crate::artifacts;
use crate::artifacts::{
    find_list, find_number, find_text, find_whole, read_group_name, Concentrations,
};
use crate::digits;
use crate::digits::{count_text, decimal_text};
use crate::json::Json;
use crate::num::Num;
use crate::report;
use crate::report::{lesser, say};
use crate::scan;
use crate::scan::join_text;
use crate::text;
use crate::text::{cat3, cat4, cat5};

verus! {

// ---------------------------------------------------------------------------
// Members
// ---------------------------------------------------------------------------

/// The text under a name, else another text.
pub open spec fn text_or(v: Json, name: Seq<char>, other: Seq<char>) -> Seq<char> {
    match artifacts::text_under(v, name) {
        Some(s) => s,
        None => other,
    }
}

fn find_text_or<'a>(v: &'a Json, name: &str, other: &'a str) -> (r: &'a str)
    ensures
        r@ == text_or(*v, name@, other@),
{
    match find_text(v, name) {
        Some(s) => s,
        None => other,
    }
}

/// The first element under a name.
pub open spec fn first_under(v: Json, name: Seq<char>) -> Option<Json> {
    let xs = artifacts::list_under(v, name);
    if xs.len() > 0 {
        Some(xs[0])
    } else {
        None
    }
}

fn find_first<'a>(v: &'a Json, name: &str) -> (r: Option<&'a Json>)
    ensures
        match r {
            Some(x) => first_under(*v, name@) == Some(*x),
            None => first_under(*v, name@) is None,
        },
{
    match find_list(v, name) {
        Some(xs) => if xs.len() > 0 {
            Some(&xs[0])
        } else {
            None
        },
        None => None,
    }
}

/// The texts among the first `n` elements.
pub open spec fn texts_among(xs: Seq<Json>, n: int) -> Seq<Seq<char>>
    decreases n,
{
    if n <= 0 {
        Seq::empty()
    } else {
        match xs[n - 1].text_spec() {
            Some(s) => texts_among(xs, n - 1).push(s),
            None => texts_among(xs, n - 1),
        }
    }
}

fn collect_texts(xs: &Vec<Json>) -> (r: Vec<String>)
    ensures
        text::views(r@) == texts_among(xs@, xs@.len() as int),
{
    let mut out: Vec<String> = Vec::new();
    let mut i: usize = 0;
    assert(text::views(out@) =~= Seq::empty());
    while i < xs.len()
        invariant
            i <= xs.len(),
            text::views(out@) == texts_among(xs@, i as int),
        decreases xs.len() - i,
    {
        match xs[i].as_text() {
            Some(s) => {
                say(&mut out, s.to_owned());
            },
            None => {},
        }
        i += 1;
    }
    out
}

/// Whether there is a list under a name.
pub open spec fn has_list(v: Json, name: Seq<char>) -> bool {
    match v.get_spec(name) {
        Some(x) => x.list_spec() is Some,
        None => false,
    }
}

/// The texts of the list under a name, else another text.
pub open spec fn listed_or(
    v: Json,
    name: Seq<char>,
    sep: Seq<char>,
    other: Seq<char>,
) -> Seq<char> {
    if has_list(v, name) {
        let xs = artifacts::list_under(v, name);
        scan::join(texts_among(xs, xs.len() as int), sep)
    } else {
        other
    }
}

fn find_listed_or(v: &Json, name: &str, sep: &str, other: &str) -> (r: String)
    ensures
        r@ == listed_or(*v, name@, sep@, other@),
{
    match v.get(name) {
        Some(x) => match x.as_list() {
            Some(xs) => join_text(&collect_texts(xs), sep),
            None => other.to_owned(),
        },
        None => other.to_owned(),
    }
}

/// Whether a written analysis is an investigation: it has a list of steps.
pub fn is_investigate_analysis_json(v: &Json) -> (r: bool)
    ensures
        r == has_list(*v, "steps"@),
{
    match v.get("steps") {
        Some(x) => match x.as_list() {
            Some(_) => true,
            None => false,
        },
        None => false,
    }
}

// ---------------------------------------------------------------------------
// Scopes
// ---------------------------------------------------------------------------

/// The binding that an element of a scope stands for: a list that starts with
/// two texts.
pub open spec fn scope_part(item: Json) -> Option<Seq<char>> {
    match item.list_spec() {
        Some(pair) => if pair.len() < 2 {
            None
        } else {
            match (pair[0].text_spec(), pair[1].text_spec()) {
                (Some(k), Some(x)) => Some(k + "="@ + x),
                _ => None,
            }
        },
        None => None,
    }
}

/// The bindings among the first `n` elements of a scope.
pub open spec fn scope_parts(items: Seq<Json>, n: int) -> Seq<Seq<char>>
    decreases n,
{
    if n <= 0 {
        Seq::empty()
    } else {
        match scope_part(items[n - 1]) {
            Some(p) => scope_parts(items, n - 1).push(p),
            None => scope_parts(items, n - 1),
        }
    }
}

/// A scope as a text; one without bindings is the whole data.
pub open spec fn scope_text(scope: Json) -> Seq<char> {
    match scope.list_spec() {
        Some(items) => {
            let parts = scope_parts(items, items.len() as int);
            if parts.len() == 0 {
                "global"@
            } else {
                scan::join(parts, ", "@)
            }
        },
        None => "global"@,
    }
}

fn write_scope_part(item: &Json) -> (r: Option<String>)
    ensures
        match r {
            Some(p) => scope_part(*item) == Some(p@),
            None => scope_part(*item) is None,
        },
{
    match item.as_list() {
        Some(pair) => {
            if pair.len() < 2 {
                return None;
            }
            match pair[0].as_text() {
                Some(k) => match pair[1].as_text() {
                    Some(x) => Some(cat3(k, "=", x)),
                    None => None,
                },
                None => None,
            }
        },
        None => None,
    }
}

/// A written scope as a text.
pub fn investigate_scope_to_text(scope: &Json) -> (r: String)
    ensures
        r@ == scope_text(*scope),
{
    let items = match scope.as_list() {
        Some(items) => items,
        None => {
            return "global".to_owned();
        },
    };
    let mut parts: Vec<String> = Vec::new();
    let mut i: usize = 0;
    assert(text::views(parts@) =~= Seq::empty());
    while i < items.len()
        invariant
            i <= items.len(),
            text::views(parts@) == scope_parts(items@, i as int),
        decreases items.len() - i,
    {
        match write_scope_part(&items[i]) {
            Some(p) => {
                say(&mut parts, p);
            },
            None => {},
        }
        i += 1;
    }
    assert(parts@.len() == text::views(parts@).len());
    if parts.len() == 0 {
        "global".to_owned()
    } else {
        join_text(&parts, ", ")
    }
}

/// The scope of a step.
pub open spec fn step_scope_text(step: Json) -> Seq<char> {
    match step.get_spec("scope"@) {
        Some(s) => scope_text(s),
        None => "global"@,
    }
}

fn write_step_scope(step: &Json) -> (r: String)
    ensures
        r@ == step_scope_text(*step),
{
    match step.get("scope") {
        Some(s) => investigate_scope_to_text(s),
        None => "global".to_owned(),
    }
}

// ---------------------------------------------------------------------------
// Figures
// ---------------------------------------------------------------------------

/// The figures of a group that its line shows.
#[derive(Clone, Copy, Debug)]
pub struct GroupFigures {
    pub share_pct: Num,
    pub value: Num,
}

/// How far a segment moved: the metric, and the share in percentage points.
#[derive(Clone, Copy, Debug)]
pub struct Movement {
    pub value: Num,
    pub share_pp: Num,
}

/// The movement that a member states; zero where it states none.
pub open spec fn movement_of(m: Json) -> Movement {
    Movement {
        value: artifacts::number_under(m, "delta_primary_metric_value"@),
        share_pp: artifacts::number_under(m, "delta_share_pp"@),
    }
}

fn read_movement(m: &Json) -> (r: Movement)
    ensures
        r == movement_of(*m),
{
    Movement {
        value: find_number(m, "delta_primary_metric_value"),
        share_pp: find_number(m, "delta_share_pp"),
    }
}

pub open spec fn no_movement() -> Movement {
    Movement { value: Num::zero_spec(), share_pp: Num::zero_spec() }
}

/// The movement of the strongest mover of a step.
pub open spec fn leading_movement(step: Json) -> Movement {
    match first_under(step, "movers"@) {
        Some(m) => movement_of(m),
        None => no_movement(),
    }
}

fn read_leading_movement(step: &Json) -> (r: Movement)
    ensures
        r == leading_movement(*step),
{
    match find_first(step, "movers") {
        Some(m) => read_movement(m),
        None => Movement { value: Num::zero(), share_pp: Num::zero() },
    }
}

/// The name under which an analysis keeps its metric.
pub open spec fn stated_metric(v: Json) -> Seq<char> {
    text_or(v, "primary_metric"@, "primary_metric"@)
}

/// The figures of a group.
pub open spec fn group_figures(g: Json, metric: Seq<char>) -> GroupFigures {
    GroupFigures {
        share_pct: artifacts::number_under(g, "count_share_pct"@),
        value: artifacts::number_under(g, metric),
    }
}

/// The figures of the first eight groups of an analysis.
pub open spec fn group_figures_of(v: Json) -> Seq<GroupFigures> {
    let groups = artifacts::list_under(v, "groups"@);
    Seq::new(
        report::least(groups.len() as int, 8) as nat,
        |i: int| group_figures(groups[i], stated_metric(v)),
    )
}

/// The figures of the groups that the evidence shows.
pub fn read_group_figures(v: &Json) -> (r: Vec<GroupFigures>)
    ensures
        r@ == group_figures_of(*v),
{
    let metric = find_text_or(v, "primary_metric", "primary_metric");
    let mut out: Vec<GroupFigures> = Vec::new();
    match find_list(v, "groups") {
        Some(groups) => {
            let count: usize = lesser(groups.len(), 8);
            let mut i: usize = 0;
            while i < count
                invariant
                    i <= count,
                    count == report::least(groups@.len() as int, 8),
                    groups@ == artifacts::list_under(*v, "groups"@),
                    metric@ == stated_metric(*v),
                    out.len() == i,
                    forall|k: int|
                        0 <= k < i ==> #[trigger] out@[k] == group_figures(
                            groups@[k],
                            stated_metric(*v),
                        ),
                decreases count - i,
            {
                let g = &groups[i];
                out.push(
                    GroupFigures {
                        share_pct: find_number(g, "count_share_pct"),
                        value: find_number(g, metric),
                    },
                );
                i += 1;
            }
        },
        None => {},
    }
    assert(out@ =~= group_figures_of(*v));
    out
}

/// The numbers under a name in each element.
pub open spec fn numbers_under(xs: Seq<Json>, name: Seq<char>) -> Seq<Num> {
    Seq::new(xs.len(), |i: int| artifacts::number_under(xs[i], name))
}

fn read_numbers(xs: &Vec<Json>, name: &str) -> (r: Vec<Num>)
    ensures
        r@ == numbers_under(xs@, name@),
{
    let mut out: Vec<Num> = Vec::new();
    let mut i: usize = 0;
    while i < xs.len()
        invariant
            i <= xs.len(),
            out.len() == i,
            forall|k: int|
                0 <= k < i ==> #[trigger] out@[k] == artifacts::number_under(xs@[k], name@),
        decreases xs.len() - i,
    {
        out.push(find_number(&xs[i], name));
        i += 1;
    }
    assert(out@ =~= numbers_under(xs@, name@));
    out
}

/// The figures of an investigation that its evidence shows: those of the first
/// step with the values of all its movers, the strongest mover of it, the first
/// three major changes, and the strongest movers of the next four steps.
#[derive(Clone, Debug)]
pub struct EvidenceFigures {
    pub base_values: Vec<Num>,
    pub new_values: Vec<Num>,
    pub concentrations: Concentrations,
    pub strongest: Movement,
    pub changes: Vec<Movement>,
    pub follow_ups: Vec<Movement>,
}

/// The concentrations that a step states.
pub open spec fn concentrations_of(step: Json) -> Concentrations {
    Concentrations {
        top5_base: artifacts::number_under(step, "top5_concentration_base_pct"@),
        top5_new: artifacts::number_under(step, "top5_concentration_new_pct"@),
        top5_delta: artifacts::number_under(step, "top5_concentration_delta_pp"@),
        top1_base: artifacts::number_under(step, "top1_concentration_base_pct"@),
        top1_new: artifacts::number_under(step, "top1_concentration_new_pct"@),
        top1_delta: artifacts::number_under(step, "top1_concentration_delta_pp"@),
    }
}

/// The major changes that the evidence shows.
pub open spec fn shown_changes(v: Json) -> int {
    report::least(artifacts::list_under(v, "major_global_changes"@).len() as int, 3)
}

/// The steps behind the first one that the evidence shows.
pub open spec fn shown_follow_ups(v: Json) -> int {
    let n = artifacts::list_under(v, "steps"@).len() as int;
    if n == 0 {
        0
    } else {
        report::least(n - 1, 4)
    }
}

/// The figures that an investigation states.
pub open spec fn figures_match(f: EvidenceFigures, v: Json) -> bool {
    let steps = artifacts::list_under(v, "steps"@);
    let changes = artifacts::list_under(v, "major_global_changes"@);
    &&& f.changes@ == Seq::new(shown_changes(v) as nat, |i: int| movement_of(changes[i]))
    &&& f.follow_ups@ == Seq::new(
        shown_follow_ups(v) as nat,
        |i: int| leading_movement(steps[i + 1]),
    )
    &&& steps.len() > 0 ==> {
        let movers = artifacts::list_under(steps[0], "movers"@);
        &&& f.base_values@ == numbers_under(movers, "base_primary_metric_value"@)
        &&& f.new_values@ == numbers_under(movers, "new_primary_metric_value"@)
        &&& f.concentrations == concentrations_of(steps[0])
        &&& f.strongest == leading_movement(steps[0])
    }
}

fn read_changes(v: &Json) -> (r: Vec<Movement>)
    ensures
        r@ == Seq::new(
            shown_changes(*v) as nat,
            |i: int| movement_of(artifacts::list_under(*v, "major_global_changes"@)[i]),
        ),
{
    let mut out: Vec<Movement> = Vec::new();
    match find_list(v, "major_global_changes") {
        Some(xs) => {
            let count: usize = lesser(xs.len(), 3);
            let mut i: usize = 0;
            while i < count
                invariant
                    i <= count,
                    count == report::least(xs@.len() as int, 3),
                    out.len() == i,
                    forall|k: int| 0 <= k < i ==> #[trigger] out@[k] == movement_of(xs@[k]),
                decreases count - i,
            {
                out.push(read_movement(&xs[i]));
                i += 1;
            }
        },
        None => {},
    }
    assert(out@ =~= Seq::new(
        shown_changes(*v) as nat,
        |i: int| movement_of(artifacts::list_under(*v, "major_global_changes"@)[i]),
    ));
    out
}

fn read_follow_ups(steps: &Vec<Json>) -> (r: Vec<Movement>)
    requires
        steps.len() > 0,
    ensures
        r@ == Seq::new(
            report::least(steps@.len() - 1, 4) as nat,
            |i: int| leading_movement(steps@[i + 1]),
        ),
{
    let mut out: Vec<Movement> = Vec::new();
    let count: usize = lesser(steps.len() - 1, 4);
    let mut i: usize = 0;
    while i < count
        invariant
            i <= count,
            count == report::least(steps@.len() - 1, 4),
            out.len() == i,
            forall|k: int| 0 <= k < i ==> #[trigger] out@[k] == leading_movement(steps@[k + 1]),
        decreases count - i,
    {
        out.push(read_leading_movement(&steps[i + 1]));
        i += 1;
    }
    assert(out@ =~= Seq::new(
        report::least(steps@.len() - 1, 4) as nat,
        |i: int| leading_movement(steps@[i + 1]),
    ));
    out
}

/// The figures of an investigation that its evidence shows.
pub fn read_evidence_figures(v: &Json) -> (r: EvidenceFigures)
    ensures
        figures_match(r, *v),
{
    let changes = read_changes(v);
    let none: Vec<Json> = Vec::new();
    let steps = match find_list(v, "steps") {
        Some(steps) => steps,
        None => &none,
    };
    assert(steps@ == artifacts::list_under(*v, "steps"@));
    if steps.len() == 0 {
        let follow_ups: Vec<Movement> = Vec::new();
        assert(follow_ups@ =~= Seq::new(0, |i: int| leading_movement(steps@[i + 1])));
        let zero = Num::zero();
        return EvidenceFigures {
            base_values: Vec::new(),
            new_values: Vec::new(),
            concentrations: Concentrations {
                top5_base: zero,
                top5_new: zero,
                top5_delta: zero,
                top1_base: zero,
                top1_new: zero,
                top1_delta: zero,
            },
            strongest: Movement { value: zero, share_pp: zero },
            changes,
            follow_ups,
        };
    }
    let step = &steps[0];
    let movers = match find_list(step, "movers") {
        Some(movers) => movers,
        None => &none,
    };
    assert(movers@ == artifacts::list_under(steps@[0], "movers"@));
    EvidenceFigures {
        base_values: read_numbers(movers, "base_primary_metric_value"),
        new_values: read_numbers(movers, "new_primary_metric_value"),
        concentrations: Concentrations {
            top5_base: find_number(step, "top5_concentration_base_pct"),
            top5_new: find_number(step, "top5_concentration_new_pct"),
            top5_delta: find_number(step, "top5_concentration_delta_pp"),
            top1_base: find_number(step, "top1_concentration_base_pct"),
            top1_new: find_number(step, "top1_concentration_new_pct"),
            top1_delta: find_number(step, "top1_concentration_delta_pp"),
        },
        strongest: read_leading_movement(step),
        changes,
        follow_ups: read_follow_ups(steps),
    }
}

// ---------------------------------------------------------------------------
// Texts of figures
// ---------------------------------------------------------------------------

/// The figures of a group as texts.
#[derive(Clone, Debug)]
pub struct GroupTexts {
    pub share: String,
    pub value: String,
}

/// A movement as texts.
#[derive(Clone, Debug)]
pub struct MovementTexts {
    pub value: String,
    pub share: String,
}

/// The totals and concentrations of the first step as texts.
#[derive(Clone, Debug)]
pub struct TopLevelTexts {
    pub base_total: String,
    pub new_total: String,
    pub delta: String,
    pub top1_base: String,
    pub top1_new: String,
    pub top1_delta: String,
    pub top5_base: String,
    pub top5_new: String,
    pub top5_delta: String,
}

/// The figures of an investigation as texts.
#[derive(Clone, Debug)]
pub struct EvidenceTexts {
    pub top_level: TopLevelTexts,
    pub strongest: MovementTexts,
    pub changes: Vec<MovementTexts>,
    pub follow_ups: Vec<MovementTexts>,
}

impl EvidenceTexts {
    /// There is a text for each figure that the evidence shows.
    pub open spec fn fits(self, v: Json) -> bool {
        &&& self.changes@.len() == shown_changes(v)
        &&& self.follow_ups@.len() == shown_follow_ups(v)
    }
}

// ---------------------------------------------------------------------------
// Lines
// ---------------------------------------------------------------------------

/// A line for each of the first eight groups.
pub open spec fn write_group_lines_lines(out: Seq<Seq<char>>, groups: Seq<Json>, metric: Seq<char>, texts: Seq<GroupTexts>, n: int) -> Seq<Seq<char>>
    decreases n,
{
    if n <= 0 {
        out
    } else {
        let out = write_group_lines_lines(out, groups, metric, texts, n - 1);
        let g = groups[n - 1];
        let t = texts[n - 1];
        let out = out.push("group='"@ + artifacts::group_name(g) + "' records="@ + digits::decimal(artifacts::whole_under(g, "count"@) as nat) + " record_share_pct="@ + t.share@ + " "@ + metric + "="@ + t.value@);
        out
    }
}

/// A line for each of the first eight groups.
#[verifier::loop_isolation(false)]
pub fn write_group_lines(out: &mut Vec<String>, groups: &Vec<Json>, metric: &str, texts: &Vec<GroupTexts>)
    requires
        texts@.len() == report::least(groups@.len() as int, 8),
    ensures
        text::views(final(out)@) == write_group_lines_lines(text::views(old(out)@), groups@, metric@, texts@, report::least(groups@.len() as int, 8 as int)),
{
    let count: usize = lesser(groups.len(), 8);
    let mut i: usize = 0;
    while i < count
        invariant
            i <= count,
            text::views(out@) == write_group_lines_lines(text::views(old(out)@), groups@, metric@, texts@, i as int),
        decreases count - i,
    {
        let g = &groups[i];
        let t = &texts[i];
        let mut line = cat5("group='", read_group_name(g), "' records=", decimal_text(find_whole(g, "count")).as_str(), " record_share_pct=");
        line.append(t.share.as_str());
        line.append(" ");
        line.append(metric);
        line.append("=");
        line.append(t.value.as_str());
        say(out, line);
        i += 1;
    }
}

/// A line for each alert that is a text.
pub open spec fn write_alert_lines_lines(out: Seq<Seq<char>>, items: Seq<Json>, n: int) -> Seq<Seq<char>>
    decreases n,
{
    if n <= 0 {
        out
    } else {
        let out = write_alert_lines_lines(out, items, n - 1);
        let a = items[n - 1];
        let out = match a.text_spec() {
            Some(s) => {
                let out = out.push("alert='"@ + s + "'"@);
                out
            },
            None => out,
        };
        out
    }
}

/// A line for each alert that is a text.
#[verifier::loop_isolation(false)]
pub fn write_alert_lines(out: &mut Vec<String>, items: &Vec<Json>)
    ensures
        text::views(final(out)@) == write_alert_lines_lines(text::views(old(out)@), items@, items@.len() as int),
{
    let mut i: usize = 0;
    while i < items.len()
        invariant
            i <= items.len(),
            text::views(out@) == write_alert_lines_lines(text::views(old(out)@), items@, i as int),
        decreases items.len() - i,
    {
        let a = &items[i];
        match a.as_text() {
            Some(s) => {
                say(out, cat3("alert='", s, "'"));
            },
            None => {},
        }
        i += 1;
    }
}

/// The evidence of an analysis by groups.
pub open spec fn write_group_evidence_lines(out: Seq<Seq<char>>, v: Json, texts: Seq<GroupTexts>) -> Seq<Seq<char>> {
    let groups = artifacts::list_under(v, "groups"@);
    let out = write_group_lines_lines(out, groups, stated_metric(v), texts, report::least(groups.len() as int, 8));
    let items = artifacts::list_under(v, "alerts"@);
    let out = write_alert_lines_lines(out, items, items.len() as int);
    out
}

/// The evidence of an analysis by groups.
pub fn write_group_evidence(out: &mut Vec<String>, v: &Json, texts: &Vec<GroupTexts>)
    requires
        texts@.len() == report::least(artifacts::list_under(*v, "groups"@).len() as int, 8),
    ensures
        text::views(final(out)@) == write_group_evidence_lines(text::views(old(out)@), *v, texts@),
{
    match find_list(v, "groups") {
        Some(groups) => {
            write_group_lines(out, groups, find_text_or(v, "primary_metric", "primary_metric"), texts);
        },
        None => {},
    }
    match find_list(v, "alerts") {
        Some(items) => {
            write_alert_lines(out, items);
        },
        None => {},
    }
}

/// The first step, and its strongest mover where it has one.
pub open spec fn write_top_level_lines(out: Seq<Seq<char>>, step: Json, t: EvidenceTexts) -> Seq<Seq<char>> {
    let out = out.push("top_level grouped_by='"@ + text_or(step, "dimension"@, "(unknown)"@) + "' segments="@ + digits::decimal(artifacts::whole_under(step, "segment_count"@) as nat) + " "@ + text_or(step, "primary_metric"@, "primary_metric"@) + " base_total="@ + t.top_level.base_total@ + " new_total="@ + t.top_level.new_total@ + " delta="@ + t.top_level.delta@ + " top1_base_pct="@ + t.top_level.top1_base@ + " top1_new_pct="@ + t.top_level.top1_new@ + " top1_delta_pp="@ + t.top_level.top1_delta@ + " top5_base_pct="@ + t.top_level.top5_base@ + " top5_new_pct="@ + t.top_level.top5_new@ + " top5_delta_pp="@ + t.top_level.top5_delta@);
    let out = match first_under(step, "movers"@) {
        Some(top) => {
            let out = out.push("top_level_strongest segment='"@ + text_or(top, "segment"@, "(unknown)"@) + "' delta_"@ + text_or(step, "primary_metric"@, "primary_metric"@) + "="@ + t.strongest.value@ + " delta_share_pp="@ + t.strongest.share@);
            out
        },
        None => out,
    };
    out
}

/// The first step, and its strongest mover where it has one.
pub fn write_top_level(out: &mut Vec<String>, step: &Json, t: &EvidenceTexts)
    ensures
        text::views(final(out)@) == write_top_level_lines(text::views(old(out)@), *step, *t),
{
    let mut line = cat5("top_level grouped_by='", find_text_or(step, "dimension", "(unknown)"), "' segments=", decimal_text(find_whole(step, "segment_count")).as_str(), " ");
    line.append(find_text_or(step, "primary_metric", "primary_metric"));
    line.append(" base_total=");
    line.append(t.top_level.base_total.as_str());
    line.append(" new_total=");
    line.append(t.top_level.new_total.as_str());
    line.append(" delta=");
    line.append(t.top_level.delta.as_str());
    line.append(" top1_base_pct=");
    line.append(t.top_level.top1_base.as_str());
    line.append(" top1_new_pct=");
    line.append(t.top_level.top1_new.as_str());
    line.append(" top1_delta_pp=");
    line.append(t.top_level.top1_delta.as_str());
    line.append(" top5_base_pct=");
    line.append(t.top_level.top5_base.as_str());
    line.append(" top5_new_pct=");
    line.append(t.top_level.top5_new.as_str());
    line.append(" top5_delta_pp=");
    line.append(t.top_level.top5_delta.as_str());
    say(out, line);
    match find_first(step, "movers") {
        Some(top) => {
            let mut line = cat5("top_level_strongest segment='", find_text_or(top, "segment", "(unknown)"), "' delta_", find_text_or(step, "primary_metric", "primary_metric"), "=");
            line.append(t.strongest.value.as_str());
            line.append(" delta_share_pp=");
            line.append(t.strongest.share.as_str());
            say(out, line);
        },
        None => {},
    }
}

/// A line for each of the first three major changes.
pub open spec fn write_change_lines_lines(out: Seq<Seq<char>>, items: Seq<Json>, texts: Seq<MovementTexts>, n: int) -> Seq<Seq<char>>
    decreases n,
{
    if n <= 0 {
        out
    } else {
        let out = write_change_lines_lines(out, items, texts, n - 1);
        let c = items[n - 1];
        let t = texts[n - 1];
        let out = out.push("major_change dimension='"@ + text_or(c, "dimension"@, "(unknown)"@) + "' segment='"@ + text_or(c, "segment"@, "(unknown)"@) + "' delta_"@ + text_or(c, "primary_metric"@, "primary_metric"@) + "="@ + t.value@ + " delta_share_pp="@ + t.share@);
        out
    }
}

/// A line for each of the first three major changes.
#[verifier::loop_isolation(false)]
pub fn write_change_lines(out: &mut Vec<String>, items: &Vec<Json>, texts: &Vec<MovementTexts>)
    requires
        texts@.len() == report::least(items@.len() as int, 3),
    ensures
        text::views(final(out)@) == write_change_lines_lines(text::views(old(out)@), items@, texts@, report::least(items@.len() as int, 3 as int)),
{
    let count: usize = lesser(items.len(), 3);
    let mut i: usize = 0;
    while i < count
        invariant
            i <= count,
            text::views(out@) == write_change_lines_lines(text::views(old(out)@), items@, texts@, i as int),
        decreases count - i,
    {
        let c = &items[i];
        let t = &texts[i];
        let mut line = cat5("major_change dimension='", find_text_or(c, "dimension", "(unknown)"), "' segment='", find_text_or(c, "segment", "(unknown)"), "' delta_");
        line.append(find_text_or(c, "primary_metric", "primary_metric"));
        line.append("=");
        line.append(t.value.as_str());
        line.append(" delta_share_pp=");
        line.append(t.share.as_str());
        say(out, line);
        i += 1;
    }
}

/// A later step, where it has a mover.
pub open spec fn write_follow_up_lines(out: Seq<Seq<char>>, step: Json, t: MovementTexts) -> Seq<Seq<char>> {
    let out = match first_under(step, "movers"@) {
        Some(top) => {
            let out = out.push("follow_up depth="@ + digits::decimal(artifacts::whole_under(step, "depth"@) as nat) + " scope='"@ + step_scope_text(step) + "' grouped_by='"@ + text_or(step, "dimension"@, "(unknown)"@) + "' strongest='"@ + text_or(top, "segment"@, "(unknown)"@) + "' delta_"@ + text_or(step, "primary_metric"@, "primary_metric"@) + "="@ + t.value@ + " delta_share_pp="@ + t.share@);
            out
        },
        None => out,
    };
    out
}

/// A later step, where it has a mover.
pub fn write_follow_up(out: &mut Vec<String>, step: &Json, t: &MovementTexts)
    ensures
        text::views(final(out)@) == write_follow_up_lines(text::views(old(out)@), *step, *t),
{
    match find_first(step, "movers") {
        Some(top) => {
            let mut line = cat5("follow_up depth=", decimal_text(find_whole(step, "depth")).as_str(), " scope='", write_step_scope(step).as_str(), "' grouped_by='");
            line.append(find_text_or(step, "dimension", "(unknown)"));
            line.append("' strongest='");
            line.append(find_text_or(top, "segment", "(unknown)"));
            line.append("' delta_");
            line.append(find_text_or(step, "primary_metric", "primary_metric"));
            line.append("=");
            line.append(t.value.as_str());
            line.append(" delta_share_pp=");
            line.append(t.share.as_str());
            say(out, line);
        },
        None => {},
    }
}


/// The steps behind the first one, `n` of them.
pub open spec fn follow_up_lines(
    out: Seq<Seq<char>>,
    steps: Seq<Json>,
    texts: Seq<MovementTexts>,
    n: int,
) -> Seq<Seq<char>>
    decreases n,
{
    if n <= 0 {
        out
    } else {
        write_follow_up_lines(
            follow_up_lines(out, steps, texts, n - 1),
            steps[n],
            texts[n - 1],
        )
    }
}

fn write_follow_ups(out: &mut Vec<String>, steps: &Vec<Json>, texts: &Vec<MovementTexts>)
    requires
        0 < steps.len(),
        texts@.len() == report::least(steps@.len() - 1, 4),
    ensures
        text::views(final(out)@) == follow_up_lines(
            text::views(old(out)@),
            steps@,
            texts@,
            texts@.len() as int,
        ),
{
    let ghost before = text::views(out@);
    let mut i: usize = 0;
    while i < texts.len()
        invariant
            i <= texts.len(),
            texts@.len() <= steps@.len() - 1,
            text::views(out@) == follow_up_lines(before, steps@, texts@, i as int),
        decreases texts.len() - i,
    {
        write_follow_up(out, &steps[i + 1], &texts[i]);
        i += 1;
    }
}


/// The evidence of an investigation.
pub open spec fn write_investigation_evidence_lines(out: Seq<Seq<char>>, v: Json, t: EvidenceTexts) -> Seq<Seq<char>> {
    let out = out.push("investigate mode='"@ + text_or(v, "mode"@, "unknown"@) + "' question='"@ + text_or(v, "question"@, "unknown"@) + "'"@);
    let steps = artifacts::list_under(v, "steps"@);
    let out = if steps.len() > 0 {
        write_top_level_lines(out, steps[0], t)
    } else {
        out
    };
    let items = artifacts::list_under(v, "major_global_changes"@);
    let out = write_change_lines_lines(out, items, t.changes@, shown_changes(v));
    let out = follow_up_lines(out, steps, t.follow_ups@, shown_follow_ups(v));
    let out = match artifacts::text_under(v, "stopping_reason"@) {
        Some(s) => {
            let out = out.push("stop_reason='"@ + s + "'"@);
            out
        },
        None => out,
    };
    let out = match artifacts::text_under(v, "recommended_next_question"@) {
        Some(s) => {
            let out = out.push("recommended_next='"@ + s + "'"@);
            out
        },
        None => out,
    };
    out
}

/// The evidence of an investigation.
pub fn write_investigation_evidence(out: &mut Vec<String>, v: &Json, t: &EvidenceTexts)
    requires
        t.fits(*v),
    ensures
        text::views(final(out)@) == write_investigation_evidence_lines(text::views(old(out)@), *v, *t),
{
    say(out, cat5("investigate mode='", find_text_or(v, "mode", "unknown"), "' question='", find_text_or(v, "question", "unknown"), "'"));
    let none: Vec<Json> = Vec::new();
    let steps = match find_list(v, "steps") {
        Some(steps) => steps,
        None => &none,
    };
    assert(steps@ == artifacts::list_under(*v, "steps"@));
    if steps.len() > 0 {
        write_top_level(out, &steps[0], t);
    }
    match find_list(v, "major_global_changes") {
        Some(items) => {
            write_change_lines(out, items, &t.changes);
        },
        None => {},
    }
    if steps.len() > 0 {
        write_follow_ups(out, steps, &t.follow_ups);
    }
    match find_text(v, "stopping_reason") {
        Some(s) => {
            say(out, cat3("stop_reason='", s, "'"));
        },
        None => {},
    }
    match find_text(v, "recommended_next_question") {
        Some(s) => {
            say(out, cat3("recommended_next='", s, "'"));
        },
        None => {},
    }
}

/// The evidence of an analysis by groups, a line for each piece.
pub open spec fn group_evidence(v: Json, texts: Seq<GroupTexts>) -> Seq<Seq<char>> {
    write_group_evidence_lines(Seq::empty(), v, texts)
}

/// The evidence of an investigation, a line for each piece.
pub open spec fn investigation_evidence(v: Json, t: EvidenceTexts) -> Seq<Seq<char>> {
    write_investigation_evidence_lines(Seq::empty(), v, t)
}

/// The evidence of an analysis by groups.
pub fn build_group_evidence(v: &Json, texts: &Vec<GroupTexts>) -> (r: Vec<String>)
    requires
        texts@.len() == group_figures_of(*v).len(),
    ensures
        text::views(r@) == group_evidence(*v, texts@),
{
    let mut out: Vec<String> = Vec::new();
    assert(text::views(out@) =~= Seq::empty());
    write_group_evidence(&mut out, v, texts);
    out
}

/// The evidence of an investigation.
pub fn build_investigate_analysis_evidence(v: &Json, texts: &EvidenceTexts) -> (r: Vec<String>)
    requires
        texts.fits(*v),
    ensures
        text::views(r@) == investigation_evidence(*v, *texts),
{
    let mut out: Vec<String> = Vec::new();
    assert(text::views(out@) =~= Seq::empty());
    write_investigation_evidence(&mut out, v, texts);
    out
}

/// The evidence of a written analysis: of an investigation where it is one,
/// else of its groups.
pub fn build_analysis_evidence(
    v: &Json,
    groups: &Vec<GroupTexts>,
    investigation: &EvidenceTexts,
) -> (r: Vec<String>)
    requires
        if has_list(*v, "steps"@) {
            investigation.fits(*v)
        } else {
            groups@.len() == group_figures_of(*v).len()
        },
    ensures
        text::views(r@) == if has_list(*v, "steps"@) {
            investigation_evidence(*v, *investigation)
        } else {
            group_evidence(*v, groups@)
        },
{
    if is_investigate_analysis_json(v) {
        build_investigate_analysis_evidence(v, investigation)
    } else {
        build_group_evidence(v, groups)
    }
}

// ---------------------------------------------------------------------------
// The context of a question
// ---------------------------------------------------------------------------

/// Evidence with its marks, by which an answer refers to it.
pub open spec fn marked(evidence: Seq<Seq<char>>) -> Seq<Seq<char>> {
    Seq::new(
        evidence.len(),
        |i: int| "[E"@ + digits::decimal((i + 1) as nat) + "] "@ + evidence[i],
    )
}

/// Evidence as a block of lines.
pub open spec fn evidence_block(evidence: Seq<Seq<char>>) -> Seq<char> {
    if evidence.len() == 0 {
        "none"@
    } else {
        scan::join(marked(evidence), "\n"@)
    }
}

fn write_evidence_block(evidence: &Vec<String>) -> (r: String)
    ensures
        r@ == evidence_block(text::views(evidence@)),
{
    let total: usize = evidence.len();
    if total == 0 {
        return "none".to_owned();
    }
    let mut out: Vec<String> = Vec::new();
    let mut i: usize = 0;
    while i < total
        invariant
            i <= total,
            total == evidence.len(),
            out.len() == i,
            forall|k: int|
                0 <= k < i ==> (#[trigger] out@[k])@ == "[E"@ + digits::decimal((k + 1) as nat)
                    + "] "@ + evidence@[k]@,
        decreases total - i,
    {
        out.push(cat4("[E", count_text(i + 1).as_str(), "] ", evidence[i].as_str()));
        i += 1;
    }
    assert(text::views(out@) =~= marked(text::views(evidence@)));
    join_text(&out, "\n")
}

/// The context of a question about an investigation.
pub open spec fn investigation_context(v: Json, evidence: Seq<Seq<char>>) -> Seq<char> {
    "schema=investigate | question="@ + text_or(v, "question"@, "unknown"@) + " | mode="@
        + text_or(v, "mode"@, "unknown"@) + " | planner="@ + text_or(v, "planner"@, "unknown"@)
        + " | steps="@ + digits::decimal(artifacts::list_under(v, "steps"@).len())
        + " | stopping_reason="@ + text_or(v, "stopping_reason"@, "unknown"@) + "\nevidence:\n"@
        + evidence_block(evidence)
}

/// The alerts of an analysis as one text.
pub open spec fn alerts_text(v: Json) -> Seq<char> {
    let s = listed_or(v, "alerts"@, "; "@, ""@);
    if s.len() == 0 {
        "none"@
    } else {
        s
    }
}

/// The context of a question about an analysis by groups.
pub open spec fn group_context(v: Json, evidence: Seq<Seq<char>>) -> Seq<char> {
    "records="@ + digits::decimal(artifacts::whole_under(v, "records"@) as nat) + " | segments="@
        + digits::decimal(artifacts::whole_under(v, "segments"@) as nat) + " | group_by="@
        + listed_or(v, "group_by"@, ", "@, "unknown"@) + " | metrics="@ + listed_or(
        v,
        "metrics"@,
        ", "@,
        "unknown"@,
    ) + "\nalerts="@ + alerts_text(v) + "\nevidence:\n"@ + evidence_block(evidence)
}

/// The context that a question about a written analysis is asked with.
pub fn build_analysis_prompt_context(v: &Json, evidence: &Vec<String>) -> (r: String)
    ensures
        r@ == if has_list(*v, "steps"@) {
            investigation_context(*v, text::views(evidence@))
        } else {
            group_context(*v, text::views(evidence@))
        },
{
    let block = write_evidence_block(evidence);
    if is_investigate_analysis_json(v) {
        let steps: usize = match find_list(v, "steps") {
            Some(xs) => xs.len(),
            None => 0,
        };
        let mut out = cat5(
            "schema=investigate | question=",
            find_text_or(v, "question", "unknown"),
            " | mode=",
            find_text_or(v, "mode", "unknown"),
            " | planner=",
        );
        out.append(find_text_or(v, "planner", "unknown"));
        out.append(" | steps=");
        out.append(count_text(steps).as_str());
        out.append(" | stopping_reason=");
        out.append(find_text_or(v, "stopping_reason", "unknown"));
        out.append("\nevidence:\n");
        out.append(block.as_str());
        return out;
    }
    let alerts = find_listed_or(v, "alerts", "; ", "");
    let mut out = cat5(
        "records=",
        decimal_text(find_whole(v, "records")).as_str(),
        " | segments=",
        decimal_text(find_whole(v, "segments")).as_str(),
        " | group_by=",
    );
    out.append(find_listed_or(v, "group_by", ", ", "unknown").as_str());
    out.append(" | metrics=");
    out.append(find_listed_or(v, "metrics", ", ", "unknown").as_str());
    out.append("\nalerts=");
    if scan::length(alerts.as_str()) == 0 {
        out.append("none");
    } else {
        out.append(alerts.as_str());
    }
    out.append("\nevidence:\n");
    out.append(block.as_str());
    out
}

/// The figures that are told of an investigation stand in it: those of a mover of
/// the first step under the mover's own names, those of the step under its own.
pub proof fn law_evidence_figures_stand_in_the_step(
    f: EvidenceFigures,
    v: Json,
    steps: Seq<Json>,
    movers: Seq<Json>,
    i: int,
    base: Num,
    new: Num,
)
    requires
        figures_match(f, v),
        v.get_spec("steps"@) is Some,
        v.get_spec("steps"@)->0.list_spec() == Some(steps),
        steps.len() > 0,
        steps[0].get_spec("movers"@) is Some,
        steps[0].get_spec("movers"@)->0.list_spec() == Some(movers),
        0 <= i < movers.len(),
        movers[i].get_spec("base_primary_metric_value"@) is Some,
        movers[i].get_spec("base_primary_metric_value"@)->0.number_spec() == Some(base),
        movers[i].get_spec("new_primary_metric_value"@) is Some,
        movers[i].get_spec("new_primary_metric_value"@)->0.number_spec() == Some(new),
    ensures
        f.base_values@.len() == movers.len() && f.new_values@.len() == movers.len(),
        f.base_values@[i] == base,
        f.new_values@[i] == new,
        f.strongest.value == artifacts::number_under(movers[0], "delta_primary_metric_value"@),
        f.strongest.share_pp == artifacts::number_under(movers[0], "delta_share_pp"@),
        f.concentrations.top5_new == artifacts::number_under(
            steps[0],
            "top5_concentration_new_pct"@,
        ),
        f.concentrations.top5_base == artifacts::number_under(
            steps[0],
            "top5_concentration_base_pct"@,
        ),
        f.concentrations.top1_new == artifacts::number_under(
            steps[0],
            "top1_concentration_new_pct"@,
        ),
        f.concentrations.top1_base == artifacts::number_under(
            steps[0],
            "top1_concentration_base_pct"@,
        ),
        f.follow_ups@.len() == (if steps.len() > 5 {
            4
        } else {
            steps.len() - 1
        }),
{
}

/// The groups that are told are the first eight, each with its own share and its
/// own value of the metric.
pub proof fn law_group_figures_stand_in_their_group(v: Json, groups: Seq<Json>, i: int)
    requires
        v.get_spec("groups"@) is Some,
        v.get_spec("groups"@)->0.list_spec() == Some(groups),
        0 <= i < groups.len(),
        i < 8,
    ensures
        group_figures_of(v).len() == (if groups.len() > 8 {
            8
        } else {
            groups.len() as int
        }),
        group_figures_of(v)[i].share_pct == artifacts::number_under(
            groups[i],
            "count_share_pct"@,
        ),
        group_figures_of(v)[i].value == artifacts::number_under(groups[i], stated_metric(v)),
{
}

/// The texts of a list are told in order; what is no text is passed over.
pub proof fn law_texts_are_told_in_order(xs: Seq<Json>, n: int)
    requires
        0 <= n <= xs.len(),
    ensures
        (forall|i: int| 0 <= i < n ==> (#[trigger] xs[i]).text_spec() is Some) ==> texts_among(
            xs,
            n,
        ) == Seq::new(n as nat, |i: int| xs[i].text_spec()->0),
        (forall|i: int| 0 <= i < n ==> (#[trigger] xs[i]).text_spec() is None) ==> texts_among(
            xs,
            n,
        ).len() == 0,
    decreases n,
{
    if n > 0 {
        law_texts_are_told_in_order(xs, n - 1);
        if forall|i: int| 0 <= i < n ==> (#[trigger] xs[i]).text_spec() is Some {
            assert(xs[n - 1].text_spec() is Some);
            assert(texts_among(xs, n) =~= Seq::new(n as nat, |i: int| xs[i].text_spec()->0));
        }
        if forall|i: int| 0 <= i < n ==> (#[trigger] xs[i]).text_spec() is None {
            assert(xs[n - 1].text_spec() is None);
        }
    } else {
        assert(texts_among(xs, n) =~= Seq::new(n as nat, |i: int| xs[i].text_spec()->0));
    }
}

} // verus!
