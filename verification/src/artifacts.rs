//! Analyses that were written as JSON documents, read back for a comparison.

use vstd::prelude::*;

use crate::args::{
    AggKind, AnalyzeArgs, InvestigateInputKind, InvestigateWorkflowArgs, InvestigationMode,
    OutputFormat, PostgresSslMode,
};
use crate::drill;
use crate::drill::rank_movers;
use crate::investigation::{InvestigationMover, InvestigationStep};
use crate::json;
use crate::json::{parse_json, Json};
use crate::list;
use crate::num::Num;
use crate::planner;
use crate::scan;
use crate::scan::{ends, length, slice};
use crate::scope;
use crate::scope::copy_scope;
use crate::text;
use crate::text::{cat3, cat5, copy_all, eq_ignore_case, same};

verus! {

/// Reads a JSON document. The path and the label only stand in the error.
pub fn read_json_document(source: &str, path: &str, label: &str) -> (r: Result<Json, String>)
    ensures
        match json::json_of(source@) {
            Ok(v) => r == Ok::<Json, String>(v),
            Err(e) => r is Err && r->Err_0@ == "failed to parse "@ + label@ + " json '"@ + path@
                + "': "@ + e,
        },
{
    match parse_json(source) {
        Ok(v) => Ok(v),
        Err(e) => {
            let mut line = cat5("failed to parse ", label, " json '", path, "': ");
            line.append(e.as_str());
            Err(line)
        },
    }
}

// ---------------------------------------------------------------------------
// Members
// ---------------------------------------------------------------------------

/// The text under a name.
pub open spec fn text_under(v: Json, name: Seq<char>) -> Option<Seq<char>> {
    match v.get_spec(name) {
        Some(x) => x.text_spec(),
        None => None,
    }
}

/// The text under a name.
pub fn find_text<'a>(v: &'a Json, name: &str) -> (r: Option<&'a str>)
    ensures
        match r {
            Some(s) => text_under(*v, name@) == Some(s@),
            None => text_under(*v, name@) is None,
        },
{
    match v.get(name) {
        Some(x) => x.as_text(),
        None => None,
    }
}

/// The elements under a name; none where there is no list.
pub open spec fn list_under(v: Json, name: Seq<char>) -> Seq<Json> {
    match v.get_spec(name) {
        Some(x) => match x.list_spec() {
            Some(xs) => xs,
            None => Seq::empty(),
        },
        None => Seq::empty(),
    }
}

/// The list under a name.
pub fn find_list<'a>(v: &'a Json, name: &str) -> (r: Option<&'a Vec<Json>>)
    ensures
        match r {
            Some(xs) => list_under(*v, name@) == xs@,
            None => list_under(*v, name@) == Seq::<Json>::empty(),
        },
{
    match v.get(name) {
        Some(x) => x.as_list(),
        None => None,
    }
}

/// The whole number under a name; zero where there is none.
pub open spec fn whole_under(v: Json, name: Seq<char>) -> u64 {
    match v.get_spec(name) {
        Some(x) => match x.whole_spec() {
            Some(n) => n,
            None => 0,
        },
        None => 0,
    }
}

/// The whole number under a name; zero where there is none.
pub fn find_whole(v: &Json, name: &str) -> (r: u64)
    ensures
        r == whole_under(*v, name@),
{
    match v.get(name) {
        Some(x) => match x.as_whole() {
            Some(n) => n,
            None => 0,
        },
        None => 0,
    }
}

/// The number under a name; zero where there is none.
pub open spec fn number_under(v: Json, name: Seq<char>) -> Num {
    match v.get_spec(name) {
        Some(x) => match x.number_spec() {
            Some(n) => n,
            None => Num::zero_spec(),
        },
        None => Num::zero_spec(),
    }
}

/// The number under a name; zero where there is none.
pub fn find_number(v: &Json, name: &str) -> (r: Num)
    ensures
        r == number_under(*v, name@),
{
    match v.get(name) {
        Some(x) => match x.as_number() {
            Some(n) => n,
            None => Num::zero(),
        },
        None => Num::zero(),
    }
}

pub open spec fn member_like(key: Seq<char>) -> spec_fn((String, Json)) -> bool {
    |m: (String, Json)| text::same_ignoring_case(m.0@, key)
}

/// The member with a name, else the first whose name differs only in case.
pub open spec fn member_named(v: Json, key: Seq<char>) -> Option<Json> {
    match v.get_spec(key) {
        Some(x) => Some(x),
        None => match v {
            Json::Object(ms) => match list::first(ms@, member_like(key)) {
                Some(m) => Some(m.1),
                None => None,
            },
            _ => None,
        },
    }
}

/// The member with a name, whatever the case of its letters.
pub fn value_by_key_case_insensitive<'a>(v: &'a Json, key: &str) -> (r: Option<&'a Json>)
    ensures
        match r {
            Some(x) => member_named(*v, key@) == Some(*x),
            None => member_named(*v, key@) is None,
        },
{
    match v.get(key) {
        Some(x) => {
            return Some(x);
        },
        None => {},
    }
    match v {
        Json::Object(ms) => {
            let mut i: usize = 0;
            while i < ms.len()
                invariant
                    i <= ms.len(),
                    *v == Json::Object(*ms),
                    v.get_spec(key@) is None,
                    list::first_from(ms@, member_like(key@), i as int) == list::first_from(
                        ms@,
                        member_like(key@),
                        0,
                    ),
                decreases ms.len() - i,
            {
                if eq_ignore_case(ms[i].0.as_str(), key) {
                    return Some(&ms[i].1);
                }
                i += 1;
            }
            None
        },
        _ => None,
    }
}

// ---------------------------------------------------------------------------
// Dimension
// ---------------------------------------------------------------------------

/// The first column by which an analysis is grouped.
pub open spec fn grouping_of(v: Option<Json>) -> Option<Seq<char>> {
    match v {
        Some(a) => {
            let xs = list_under(a, "group_by"@);
            if xs.len() > 0 {
                xs[0].text_spec()
            } else {
                None
            }
        },
        None => None,
    }
}

pub open spec fn deref_json(v: Option<&Json>) -> Option<Json> {
    match v {
        Some(x) => Some(*x),
        None => None,
    }
}

fn find_grouping<'a>(v: Option<&'a Json>) -> (r: Option<&'a str>)
    ensures
        match r {
            Some(s) => grouping_of(deref_json(v)) == Some(s@),
            None => grouping_of(deref_json(v)) is None,
        },
{
    match v {
        Some(a) => match find_list(a, "group_by") {
            Some(xs) => if xs.len() > 0 {
                xs[0].as_text()
            } else {
                None
            },
            None => None,
        },
        None => None,
    }
}

/// The column by which both analyses are grouped, or why there is none.
pub open spec fn shared_grouping(base: Option<Json>, new: Option<Json>) -> Result<
    Seq<char>,
    Seq<char>,
> {
    match (grouping_of(base), grouping_of(new)) {
        (Some(b), Some(n)) => if b == n {
            Ok(n)
        } else {
            Err(
                "base/new artifacts use different group_by dimensions ('"@ + b + "' vs '"@ + n
                    + "')"@,
            )
        },
        (None, Some(n)) => Ok(n),
        (Some(b), None) => Ok(b),
        (None, None) => Err(
            "could not infer grouping dimension from artifact JSON; pass --dimensions explicitly"@,
        ),
    }
}

pub open spec fn text_result(r: Result<String, String>) -> Result<Seq<char>, Seq<char>> {
    match r {
        Ok(v) => Ok(v@),
        Err(e) => Err(e@),
    }
}

/// The column by which both analyses are grouped.
pub fn infer_artifact_group_dimension(base: Option<&Json>, new: Option<&Json>) -> (r: Result<
    String,
    String,
>)
    ensures
        text_result(r) == shared_grouping(deref_json(base), deref_json(new)),
{
    match find_grouping(base) {
        Some(b) => match find_grouping(new) {
            Some(n) => if same(b, n) {
                Ok(n.to_owned())
            } else {
                Err(
                    cat5(
                        "base/new artifacts use different group_by dimensions ('",
                        b,
                        "' vs '",
                        n,
                        "')",
                    ),
                )
            },
            None => Ok(b.to_owned()),
        },
        None => match find_grouping(new) {
            Some(n) => Ok(n.to_owned()),
            None => Err(
                "could not infer grouping dimension from artifact JSON; pass --dimensions explicitly".to_owned(),
            ),
        },
    }
}

/// The dimensions that an investigation descends through, where the first is
/// the top one: those asked for, else what is left of the list.
pub open spec fn drill_dimensions(args: InvestigateWorkflowArgs, all: Seq<Seq<char>>) -> Seq<
    Seq<char>,
> {
    if args.drill_fields@.len() > 0 {
        text::views(args.drill_fields@)
    } else if all.len() > 0 {
        all.skip(1)
    } else {
        all
    }
}

fn pick_drill_dimensions(args: &InvestigateWorkflowArgs, all: &Vec<String>) -> (r: Vec<String>)
    ensures
        text::views(r@) == drill_dimensions(*args, text::views(all@)),
{
    if args.drill_fields.len() > 0 {
        return copy_all(&args.drill_fields);
    }
    let mut out: Vec<String> = Vec::new();
    let mut i: usize = 1;
    while i < all.len()
        invariant
            1 <= i,
            i <= all.len() || i == 1,
            out.len() == i - 1,
            forall|k: int| 0 <= k < i - 1 ==> (#[trigger] out@[k])@ == all@[k + 1]@,
        decreases all.len() - i,
    {
        out.push(all[i].clone());
        i += 1;
    }
    assert(text::views(out@) =~= drill_dimensions(*args, text::views(all@)));
    out
}

/// The top dimension and the ones below it, or why there are none. `inferred`
/// are the dimensions found in the data.
pub open spec fn chosen_dimensions(
    args: InvestigateWorkflowArgs,
    kind: InvestigateInputKind,
    base: Option<Json>,
    new: Option<Json>,
    inferred: Seq<Seq<char>>,
) -> Result<(Seq<char>, Seq<Seq<char>>), Seq<char>> {
    let asked = text::views(args.dimensions@);
    if kind == InvestigateInputKind::JsonArtifacts {
        match shared_grouping(base, new) {
            Err(e) => Err(e),
            Ok(top) => if asked.len() > 0 && !text::same_ignoring_case(asked[0], top) {
                Err(
                    "for JSON artifacts, --dimensions must match artifact grouping '"@ + top
                        + "' (got '"@ + asked[0] + "')"@,
                )
            } else {
                Ok((top, drill_dimensions(args, asked)))
            },
        }
    } else if asked.len() > 0 {
        Ok((asked[0], drill_dimensions(args, asked)))
    } else if inferred.len() > 0 {
        Ok((inferred[0], drill_dimensions(args, inferred)))
    } else {
        Err("failed to infer top dimension for investigate"@)
    }
}

/// Whether the dimensions have to be found in the data.
pub fn needs_inferred_dimensions(args: &InvestigateWorkflowArgs, kind: InvestigateInputKind) -> (r:
    bool)
    ensures
        r == (kind != InvestigateInputKind::JsonArtifacts && args.dimensions@.len() == 0),
{
    kind != InvestigateInputKind::JsonArtifacts && args.dimensions.len() == 0
}

/// The top dimension of an investigation and the ones below it. `inferred` are
/// the dimensions found in the data, which count only where none are asked for.
pub fn resolve_investigation_dimensions(
    args: &InvestigateWorkflowArgs,
    kind: InvestigateInputKind,
    base: Option<&Json>,
    new: Option<&Json>,
    inferred: &Vec<String>,
) -> (r: Result<(String, Vec<String>), String>)
    ensures
        match r {
            Ok(d) => chosen_dimensions(
                *args,
                kind,
                deref_json(base),
                deref_json(new),
                text::views(inferred@),
            ) == Ok::<(Seq<char>, Seq<Seq<char>>), Seq<char>>((d.0@, text::views(d.1@))),
            Err(e) => chosen_dimensions(
                *args,
                kind,
                deref_json(base),
                deref_json(new),
                text::views(inferred@),
            ) == Err::<(Seq<char>, Seq<Seq<char>>), Seq<char>>(e@),
        },
{
    let ghost asked = text::views(args.dimensions@);
    if kind == InvestigateInputKind::JsonArtifacts {
        let top = match infer_artifact_group_dimension(base, new) {
            Ok(t) => t,
            Err(e) => {
                return Err(e);
            },
        };
        if args.dimensions.len() > 0 {
            assert(asked[0] == args.dimensions@[0]@);
            if !eq_ignore_case(args.dimensions[0].as_str(), top.as_str()) {
                return Err(
                    cat5(
                        "for JSON artifacts, --dimensions must match artifact grouping '",
                        top.as_str(),
                        "' (got '",
                        args.dimensions[0].as_str(),
                        "')",
                    ),
                );
            }
        }
        let below = pick_drill_dimensions(args, &args.dimensions);
        return Ok((top, below));
    }
    if args.dimensions.len() > 0 {
        assert(asked[0] == args.dimensions@[0]@);
        let below = pick_drill_dimensions(args, &args.dimensions);
        return Ok((args.dimensions[0].clone(), below));
    }
    if inferred.len() > 0 {
        assert(text::views(inferred@)[0] == inferred@[0]@);
        let below = pick_drill_dimensions(args, inferred);
        return Ok((inferred[0].clone(), below));
    }
    Err("failed to infer top dimension for investigate".to_owned())
}

// ---------------------------------------------------------------------------
// Metric
// ---------------------------------------------------------------------------

/// A text without an ending, where it has it.
pub open spec fn without_ending(s: Seq<char>, ending: Seq<char>) -> Option<Seq<char>> {
    if scan::ends_with(s, ending) {
        Some(s.take(s.len() - ending.len()))
    } else {
        None
    }
}

fn cut_ending(s: &str, ending: &str) -> (r: Option<String>)
    ensures
        planner::optional_text(r) == without_ending(s@, ending@),
{
    if ends(s, ending) {
        let n: usize = length(s);
        let m: usize = length(ending);
        let out = slice(s, 0, n - m);
        assert(out@ =~= s@.take(s@.len() - ending@.len()));
        Some(out)
    } else {
        None
    }
}

/// A percentile column without its ending.
pub open spec fn percentile_base(m: Seq<char>) -> Option<Seq<char>> {
    match without_ending(m, "_p25"@) {
        Some(b) => Some(b),
        None => match without_ending(m, "_p50"@) {
            Some(b) => Some(b),
            None => without_ending(m, "_p75"@),
        },
    }
}

/// A declared column shows the metric itself or one of its quartiles.
pub open spec fn declares(m: Seq<char>, metric: Seq<char>) -> bool {
    text::same_ignoring_case(m, metric) || match percentile_base(m) {
        Some(b) => text::same_ignoring_case(b, metric),
        None => false,
    }
}

fn is_declared(m: &str, metric: &str) -> (r: bool)
    ensures
        r == declares(m@, metric@),
{
    if eq_ignore_case(m, metric) {
        return true;
    }
    match cut_ending(m, "_p25") {
        Some(b) => {
            return eq_ignore_case(b.as_str(), metric);
        },
        None => {},
    }
    match cut_ending(m, "_p50") {
        Some(b) => {
            return eq_ignore_case(b.as_str(), metric);
        },
        None => {},
    }
    match cut_ending(m, "_p75") {
        Some(b) => eq_ignore_case(b.as_str(), metric),
        None => false,
    }
}

/// An analysis shows a metric: it declares it, or its first group has it.
pub open spec fn shows_metric(v: Json, metric: Seq<char>) -> bool {
    let declared = list_under(v, "metrics"@);
    let groups = list_under(v, "groups"@);
    (exists|i: int|
        0 <= i < declared.len() && match (#[trigger] declared[i]).text_spec() {
            Some(m) => declares(m, metric),
            None => false,
        }) || (groups.len() > 0 && member_named(groups[0], metric) is Some)
}

/// Whether an analysis shows a metric.
#[verifier::loop_isolation(false)]
pub fn artifact_has_metric(v: &Json, metric: &str) -> (r: bool)
    ensures
        r == shows_metric(*v, metric@),
{
    let ghost declared = list_under(*v, "metrics"@);
    match find_list(v, "metrics") {
        Some(xs) => {
            let mut i: usize = 0;
            while i < xs.len()
                invariant
                    i <= xs.len(),
                    forall|k: int|
                        0 <= k < i ==> match (#[trigger] declared[k]).text_spec() {
                            Some(m) => !declares(m, metric@),
                            None => true,
                        },
                decreases xs.len() - i,
            {
                match xs[i].as_text() {
                    Some(m) => {
                        if is_declared(m, metric) {
                            assert(declared[i as int].text_spec() == Some(m@));
                            return true;
                        }
                    },
                    None => {},
                }
                i += 1;
            }
        },
        None => {},
    }
    match find_list(v, "groups") {
        Some(gs) => if gs.len() > 0 {
            match value_by_key_case_insensitive(&gs[0], metric) {
                Some(_) => true,
                None => false,
            }
        } else {
            false
        },
        None => false,
    }
}

pub open spec fn no_metric_message(label: Seq<char>, metric: Seq<char>) -> Seq<char> {
    label + " artifact does not contain metric '"@ + metric + "' in groups/metrics"@
}

/// Checks that an analysis shows a metric.
pub fn validate_metric_in_artifact(v: &Json, metric: &str, label: &str) -> (r: Result<(), String>)
    ensures
        match r {
            Ok(_) => shows_metric(*v, metric@),
            Err(e) => !shows_metric(*v, metric@) && e@ == no_metric_message(label@, metric@),
        },
{
    if artifact_has_metric(v, metric) {
        Ok(())
    } else {
        let mut line = cat3(label, " artifact does not contain metric '", metric);
        line.append("' in groups/metrics");
        Err(line)
    }
}

/// The primary metric of an analysis.
pub fn artifact_primary_metric(v: &Json) -> (r: Option<String>)
    ensures
        planner::optional_text(r) == text_under(*v, "primary_metric"@),
{
    match find_text(v, "primary_metric") {
        Some(s) => Some(s.to_owned()),
        None => None,
    }
}

/// The metric that both analyses show, or which of them does not.
pub open spec fn checked_metric(base: Json, new: Json, metric: Seq<char>) -> Result<
    Seq<char>,
    Seq<char>,
> {
    if !shows_metric(base, metric) {
        Err(no_metric_message("base"@, metric))
    } else if !shows_metric(new, metric) {
        Err(no_metric_message("new"@, metric))
    } else {
        Ok(metric)
    }
}

/// The metric by which two analyses are compared, or why there is none.
pub open spec fn shared_metric(base: Json, new: Json, requested: Option<Seq<char>>) -> Result<
    Seq<char>,
    Seq<char>,
> {
    match requested {
        Some(m) => checked_metric(base, new, m),
        None => match text_under(base, "primary_metric"@) {
            None => Err("base artifact missing primary_metric; pass --metric explicitly"@),
            Some(b) => match text_under(new, "primary_metric"@) {
                None => Err("new artifact missing primary_metric; pass --metric explicitly"@),
                Some(n) => if b != n {
                    Err(
                        "base/new artifacts have different primary_metric values ('"@ + b
                            + "' vs '"@ + n
                            + "'); pass --metric that exists in both artifacts"@,
                    )
                } else {
                    checked_metric(base, new, n)
                },
            },
        },
    }
}

fn check_metric(base: &Json, new: &Json, metric: &str) -> (r: Result<String, String>)
    ensures
        text_result(r) == checked_metric(*base, *new, metric@),
{
    match validate_metric_in_artifact(base, metric, "base") {
        Ok(_) => {},
        Err(e) => {
            return Err(e);
        },
    }
    match validate_metric_in_artifact(new, metric, "new") {
        Ok(_) => Ok(metric.to_owned()),
        Err(e) => Err(e),
    }
}

/// The metric by which two analyses are compared.
pub fn resolve_metric_for_json_artifacts(
    base: &Json,
    new: &Json,
    requested_metric: &Option<String>,
) -> (r: Result<String, String>)
    ensures
        text_result(r) == shared_metric(*base, *new, planner::optional_text(*requested_metric)),
{
    match requested_metric {
        Some(m) => {
            return check_metric(base, new, m.as_str());
        },
        None => {},
    }
    let b = match artifact_primary_metric(base) {
        Some(b) => b,
        None => {
            return Err(
                "base artifact missing primary_metric; pass --metric explicitly".to_owned(),
            );
        },
    };
    let n = match artifact_primary_metric(new) {
        Some(n) => n,
        None => {
            return Err("new artifact missing primary_metric; pass --metric explicitly".to_owned());
        },
    };
    if !same(b.as_str(), n.as_str()) {
        return Err(
            cat5(
                "base/new artifacts have different primary_metric values ('",
                b.as_str(),
                "' vs '",
                n.as_str(),
                "'); pass --metric that exists in both artifacts",
            ),
        );
    }
    check_metric(base, new, n.as_str())
}

/// The metric by which two tables are compared.
pub fn metric_for_tables(args: &InvestigateWorkflowArgs) -> (r: Result<String, String>)
    ensures
        match args.metric {
            Some(m) => r is Ok && r->Ok_0@ == m@,
            None => r is Err && r->Err_0@
                == "--metric is required when --base/--new point to CSV datasets"@,
        },
{
    match &args.metric {
        Some(m) => Ok(m.clone()),
        None => Err("--metric is required when --base/--new point to CSV datasets".to_owned()),
    }
}

/// The movers that a step keeps: as many as are shown or branched into, at least one.
pub open spec fn mover_limit(args: InvestigateWorkflowArgs) -> int {
    let a = if args.top_movers > args.max_branches {
        args.top_movers
    } else {
        args.max_branches
    };
    if a > 1 {
        a as int
    } else {
        1
    }
}

/// The number of movers that a step keeps.
pub fn step_mover_limit(args: &InvestigateWorkflowArgs) -> (r: usize)
    ensures
        r == mover_limit(*args),
{
    let a: usize = if args.top_movers > args.max_branches {
        args.top_movers
    } else {
        args.max_branches
    };
    if a > 1 {
        a
    } else {
        1
    }
}

// ---------------------------------------------------------------------------
// Segments
// ---------------------------------------------------------------------------

/// The figures of a segment in an analysis.
#[derive(Clone, Copy, Debug)]
pub struct SegmentFigures {
    pub records: u64,
    pub share_pct: Num,
    pub value: Num,
}

/// The name of a group.
pub open spec fn group_name(g: Json) -> Seq<char> {
    match text_under(g, "group"@) {
        Some(s) => s,
        None => "(unknown)"@,
    }
}

/// The figures of a group.
pub open spec fn group_figures(g: Json, metric: Seq<char>) -> SegmentFigures {
    SegmentFigures {
        records: whole_under(g, "count"@),
        share_pct: number_under(g, "count_share_pct"@),
        value: match member_named(g, metric) {
            Some(x) => match x.number_spec() {
                Some(n) => n,
                None => Num::zero_spec(),
            },
            None => Num::zero_spec(),
        },
    }
}

pub open spec fn no_figures() -> SegmentFigures {
    SegmentFigures { records: 0, share_pct: Num::zero_spec(), value: Num::zero_spec() }
}

/// The figures of the last of the first `n` groups with a name; where there is
/// none, all are zero.
pub open spec fn figures_of(groups: Seq<Json>, metric: Seq<char>, name: Seq<char>, n: int) -> SegmentFigures
    decreases n,
{
    if n <= 0 {
        no_figures()
    } else if group_name(groups[n - 1]) == name {
        group_figures(groups[n - 1], metric)
    } else {
        figures_of(groups, metric, name, n - 1)
    }
}

/// The names of groups.
pub open spec fn group_names(groups: Seq<Json>) -> Seq<Seq<char>> {
    Seq::new(groups.len(), |i: int| group_name(groups[i]))
}

/// The groups of an analysis, each name once, with its last figures.
pub open spec fn figures_by_name(v: Json, metric: Seq<char>) -> Seq<(Seq<char>, SegmentFigures)> {
    let groups = list_under(v, "groups"@);
    let names = list::distinct_by(group_names(groups), |n: Seq<char>| n);
    Seq::new(
        names.len(),
        |i: int| (names[i], figures_of(groups, metric, names[i], groups.len() as int)),
    )
}

pub open spec fn figure_views(s: Seq<(String, SegmentFigures)>) -> Seq<
    (Seq<char>, SegmentFigures),
> {
    Seq::new(s.len(), |i: int| (s[i].0@, s[i].1))
}

/// The name of a group.
pub fn read_group_name<'a>(g: &'a Json) -> (r: &'a str)
    ensures
        r@ == group_name(*g),
{
    match find_text(g, "group") {
        Some(s) => s,
        None => "(unknown)",
    }
}

fn read_figures(g: &Json, metric: &str) -> (r: SegmentFigures)
    ensures
        r == group_figures(*g, metric@),
{
    let value = match value_by_key_case_insensitive(g, metric) {
        Some(x) => match x.as_number() {
            Some(n) => n,
            None => Num::zero(),
        },
        None => Num::zero(),
    };
    SegmentFigures {
        records: find_whole(g, "count"),
        share_pct: find_number(g, "count_share_pct"),
        value,
    }
}

fn find_figures(groups: &Vec<Json>, metric: &str, name: &str) -> (r: SegmentFigures)
    ensures
        r == figures_of(groups@, metric@, name@, groups@.len() as int),
{
    let mut i: usize = groups.len();
    while i > 0
        invariant
            i <= groups.len(),
            figures_of(groups@, metric@, name@, i as int) == figures_of(
                groups@,
                metric@,
                name@,
                groups@.len() as int,
            ),
        decreases i,
    {
        if same(read_group_name(&groups[i - 1]), name) {
            return read_figures(&groups[i - 1], metric);
        }
        i -= 1;
    }
    SegmentFigures { records: 0, share_pct: Num::zero(), value: Num::zero() }
}

/// The groups of an analysis, each name once, with its last figures.
#[verifier::loop_isolation(false)]
pub fn groups_to_map(v: &Json, primary_metric: &str) -> (r: Vec<(String, SegmentFigures)>)
    ensures
        figure_views(r@) == figures_by_name(*v, primary_metric@),
{
    let mut out: Vec<(String, SegmentFigures)> = Vec::new();
    let groups = match find_list(v, "groups") {
        Some(gs) => gs,
        None => {
            assert(figure_views(out@) =~= figures_by_name(*v, primary_metric@));
            return out;
        },
    };
    let ghost all = group_names(groups@);
    let mut names: Vec<String> = Vec::new();
    assert(text::views(names@) =~= list::distinct_by(
        Seq::<Seq<char>>::empty(),
        |n: Seq<char>| n,
    ));
    collect_names(&mut names, groups, Ghost(Seq::empty()));
    assert(Seq::<Seq<char>>::empty() + all =~= all);
    let ghost distinct = text::views(names@);
    let mut k: usize = 0;
    while k < names.len()
        invariant
            k <= names.len(),
            out.len() == k,
            forall|j: int|
                0 <= j < k ==> (#[trigger] out@[j]).0@ == distinct[j] && out@[j].1 == figures_of(
                    groups@,
                    primary_metric@,
                    distinct[j],
                    groups@.len() as int,
                ),
        decreases names.len() - k,
    {
        let f = find_figures(groups, primary_metric, names[k].as_str());
        out.push((names[k].clone(), f));
        k += 1;
    }
    assert(figure_views(out@) =~= figures_by_name(*v, primary_metric@));
    out
}

/// A segment in both analyses.
#[derive(Clone, Debug)]
pub struct SegmentPair {
    pub segment: String,
    pub base: SegmentFigures,
    pub new: SegmentFigures,
}

/// A segment pair in views.
pub struct SegmentPairView {
    pub segment: Seq<char>,
    pub base: SegmentFigures,
    pub new: SegmentFigures,
}

impl View for SegmentPair {
    type V = SegmentPairView;

    open spec fn view(&self) -> SegmentPairView {
        SegmentPairView { segment: self.segment@, base: self.base, new: self.new }
    }
}

pub open spec fn pair_views(s: Seq<SegmentPair>) -> Seq<SegmentPairView> {
    Seq::new(s.len(), |i: int| s[i]@)
}

/// The segments of either analysis, those of the base first, with their
/// figures in both.
pub open spec fn segment_pairs(base: Json, new: Json, metric: Seq<char>) -> Seq<SegmentPairView> {
    let b = list_under(base, "groups"@);
    let n = list_under(new, "groups"@);
    let names = list::distinct_by(group_names(b) + group_names(n), |x: Seq<char>| x);
    Seq::new(
        names.len(),
        |i: int|
            SegmentPairView {
                segment: names[i],
                base: figures_of(b, metric, names[i], b.len() as int),
                new: figures_of(n, metric, names[i], n.len() as int),
            },
    )
}

fn collect_names(
    names: &mut Vec<String>,
    groups: &Vec<Json>,
    Ghost(before): Ghost<Seq<Seq<char>>>,
)
    requires
        text::views(old(names)@) == list::distinct_by(before, |x: Seq<char>| x),
    ensures
        text::views(final(names)@) == list::distinct_by(
            before + group_names(groups@),
            |x: Seq<char>| x,
        ),
{
    let ghost all = group_names(groups@);
    let mut i: usize = 0;
    assert(before + all.take(0) =~= before);
    while i < groups.len()
        invariant
            i <= groups.len(),
            all == group_names(groups@),
            text::views(names@) == list::distinct_by(
                before + all.take(i as int),
                |x: Seq<char>| x,
            ),
        decreases groups.len() - i,
    {
        assert((before + all.take(i + 1)).drop_last() =~= before + all.take(i as int));
        assert((before + all.take(i + 1)).last() == all[i as int]);
        drill::push_distinct(
            names,
            read_group_name(&groups[i]),
            Ghost(before + all.take(i as int)),
        );
        assert((before + all.take(i as int)).push(all[i as int]) =~= before + all.take(i + 1));
        i += 1;
    }
    assert(all.take(all.len() as int) =~= all);
}

/// The segments of either analysis with their figures in both.
#[verifier::loop_isolation(false)]
pub fn pair_segments(base: &Json, new: &Json, metric: &str) -> (r: Vec<SegmentPair>)
    ensures
        pair_views(r@) == segment_pairs(*base, *new, metric@),
{
    let none: Vec<Json> = Vec::new();
    let b = match find_list(base, "groups") {
        Some(xs) => xs,
        None => &none,
    };
    let n = match find_list(new, "groups") {
        Some(xs) => xs,
        None => &none,
    };
    assert(b@ == list_under(*base, "groups"@));
    assert(n@ == list_under(*new, "groups"@));
    let mut names: Vec<String> = Vec::new();
    assert(text::views(names@) =~= list::distinct_by(
        Seq::<Seq<char>>::empty(),
        |x: Seq<char>| x,
    ));
    collect_names(&mut names, b, Ghost(Seq::empty()));
    assert(Seq::<Seq<char>>::empty() + group_names(b@) =~= group_names(b@));
    collect_names(&mut names, n, Ghost(group_names(b@)));
    let ghost distinct = text::views(names@);
    let mut out: Vec<SegmentPair> = Vec::new();
    let mut k: usize = 0;
    while k < names.len()
        invariant
            k <= names.len(),
            out.len() == k,
            forall|j: int|
                0 <= j < k ==> (#[trigger] out@[j])@ == (SegmentPairView {
                    segment: distinct[j],
                    base: figures_of(b@, metric@, distinct[j], b@.len() as int),
                    new: figures_of(n@, metric@, distinct[j], n@.len() as int),
                }),
        decreases names.len() - k,
    {
        let x = find_figures(b, metric, names[k].as_str());
        let y = find_figures(n, metric, names[k].as_str());
        out.push(SegmentPair { segment: names[k].clone(), base: x, new: y });
        assert(out@[k as int]@.segment == distinct[k as int]);
        k += 1;
    }
    assert(pair_views(out@) =~= segment_pairs(*base, *new, metric@));
    out
}

/// No segment stands twice among the pairs, and every group of either analysis
/// is among them.
pub proof fn law_pairs_cover_both(base: Json, new: Json, metric: Seq<char>)
    ensures
        forall|i: int, j: int|
            #![trigger segment_pairs(base, new, metric)[i], segment_pairs(base, new, metric)[j]]
            0 <= i < j < segment_pairs(base, new, metric).len() ==> segment_pairs(
                base,
                new,
                metric,
            )[i].segment != segment_pairs(base, new, metric)[j].segment,
        forall|k: int|
            #![trigger list_under(base, "groups"@)[k]]
            0 <= k < list_under(base, "groups"@).len() ==> exists|i: int|
                0 <= i < segment_pairs(base, new, metric).len() && (#[trigger] segment_pairs(
                    base,
                    new,
                    metric,
                )[i]).segment == group_name(list_under(base, "groups"@)[k]),
        forall|k: int|
            #![trigger list_under(new, "groups"@)[k]]
            0 <= k < list_under(new, "groups"@).len() ==> exists|i: int|
                0 <= i < segment_pairs(base, new, metric).len() && (#[trigger] segment_pairs(
                    base,
                    new,
                    metric,
                )[i]).segment == group_name(list_under(new, "groups"@)[k]),
{
    let b = list_under(base, "groups"@);
    let n = list_under(new, "groups"@);
    let all = group_names(b) + group_names(n);
    let key = |x: Seq<char>| x;
    let names = list::distinct_by(all, key);
    let pairs = segment_pairs(base, new, metric);
    list::lemma_distinct_by(all, key);
    assert(pairs.len() == names.len());
    assert forall|i: int, j: int| #![trigger pairs[i], pairs[j]] 0 <= i < j
        < pairs.len() implies pairs[i].segment != pairs[j].segment by {
        assert(key(names[i]) != key(names[j]));
    }
    assert forall|k: int| #![trigger b[k]] 0 <= k < b.len() implies exists|i: int|
        0 <= i < pairs.len() && (#[trigger] pairs[i]).segment == group_name(b[k]) by {
        assert(all[k] == group_name(b[k]));
        let i = choose|i: int| 0 <= i < names.len() && key(#[trigger] names[i]) == key(all[k]);
        assert(pairs[i].segment == names[i]);
    }
    assert forall|k: int| #![trigger n[k]] 0 <= k < n.len() implies exists|i: int|
        0 <= i < pairs.len() && (#[trigger] pairs[i]).segment == group_name(n[k]) by {
        assert(all[b.len() + k] == group_name(n[k]));
        let i = choose|i: int|
            0 <= i < names.len() && key(#[trigger] names[i]) == key(all[b.len() + k]);
        assert(pairs[i].segment == names[i]);
    }
}

/// The largest share of the groups, but at least zero.
pub open spec fn largest_share(figures: Seq<(Seq<char>, SegmentFigures)>, n: int) -> Num
    decreases n,
{
    if n <= 0 {
        Num::zero_spec()
    } else {
        let front = largest_share(figures, n - 1);
        if front.lt(figures[n - 1].1.share_pct) {
            figures[n - 1].1.share_pct
        } else {
            front
        }
    }
}

/// The largest share of the groups of an analysis, but at least zero.
#[verifier::loop_isolation(false)]
pub fn top_share(v: &Json, metric: &str) -> (r: Num)
    ensures
        r == largest_share(
            figures_by_name(*v, metric@),
            figures_by_name(*v, metric@).len() as int,
        ),
{
    let groups = groups_to_map(v, metric);
    let ghost all = figure_views(groups@);
    let mut best = Num::zero();
    let mut i: usize = 0;
    while i < groups.len()
        invariant
            i <= groups.len(),
            best == largest_share(all, i as int),
        decreases groups.len() - i,
    {
        assert(all[i as int].1 == groups@[i as int].1);
        if best.less(groups[i].1.share_pct) {
            best = groups[i].1.share_pct;
        }
        i += 1;
    }
    best
}

/// The metric of a step: the one asked for, else that of the newer analysis,
/// else that of the base.
pub open spec fn step_metric(base: Json, new: Json, hint: Option<Seq<char>>) -> Option<Seq<char>> {
    match hint {
        Some(m) => Some(m),
        None => match text_under(new, "primary_metric"@) {
            Some(m) => Some(m),
            None => text_under(base, "primary_metric"@),
        },
    }
}

/// The metric of a step.
pub fn resolve_step_metric(base: &Json, new: &Json, hint: &Option<String>) -> (r: Result<
    String,
    String,
>)
    ensures
        match step_metric(*base, *new, planner::optional_text(*hint)) {
            Some(m) => r is Ok && r->Ok_0@ == m,
            None => r is Err && r->Err_0@
                == "primary metric missing in reports; pass --metric explicitly"@,
        },
{
    match hint {
        Some(m) => {
            return Ok(m.clone());
        },
        None => {},
    }
    match artifact_primary_metric(new) {
        Some(m) => {
            return Ok(m);
        },
        None => {},
    }
    match artifact_primary_metric(base) {
        Some(m) => Ok(m),
        None => Err("primary metric missing in reports; pass --metric explicitly".to_owned()),
    }
}

/// The records of an analysis and those of its five largest segments.
#[derive(Clone, Copy, Debug)]
pub struct RecordCounts {
    pub records: u64,
    pub top5: u64,
}

/// The records of an analysis and those of its five largest segments.
pub fn record_counts(v: &Json) -> (r: RecordCounts)
    ensures
        r.records == whole_under(*v, "records"@),
        r.top5 == whole_under(*v, "top5_count"@),
{
    RecordCounts { records: find_whole(v, "records"), top5: find_whole(v, "top5_count") }
}

/// The concentrations of a step in percent, before and after, and their
/// differences in percentage points.
#[derive(Clone, Copy, Debug)]
pub struct Concentrations {
    pub top5_base: Num,
    pub top5_new: Num,
    pub top5_delta: Num,
    pub top1_base: Num,
    pub top1_new: Num,
    pub top1_delta: Num,
}

/// Puts a step together: the strongest movers stay, at least one, and the
/// depth is the number of bindings of the scope.
pub fn build_investigation_step(
    dimension: &str,
    scope: &[(String, String)],
    mode: InvestigationMode,
    metric: String,
    counts: (RecordCounts, RecordCounts),
    concentrations: Concentrations,
    movers: Vec<InvestigationMover>,
    top_movers: usize,
) -> (r: InvestigationStep)
    ensures
        r.depth == scope@.len(),
        r.dimension@ == dimension@,
        scope::bindings(r.scope@) == scope::bindings(scope@),
        r.primary_metric == metric,
        r.base_records == counts.0.records,
        r.new_records == counts.1.records,
        r.segment_count == movers@.len(),
        r.top5_concentration_base_pct == concentrations.top5_base,
        r.top5_concentration_new_pct == concentrations.top5_new,
        r.top5_concentration_delta_pp == concentrations.top5_delta,
        r.top1_concentration_base_pct == concentrations.top1_base,
        r.top1_concentration_new_pct == concentrations.top1_new,
        r.top1_concentration_delta_pp == concentrations.top1_delta,
        r.movers@ == drill::ranked_movers(movers@, mode, top_movers),
{
    let segment_count: usize = movers.len();
    let kept = rank_movers(movers, mode, top_movers);
    InvestigationStep {
        depth: scope.len(),
        dimension: dimension.to_owned(),
        scope: copy_scope(scope),
        primary_metric: metric,
        base_records: counts.0.records,
        new_records: counts.1.records,
        segment_count,
        top5_concentration_base_pct: concentrations.top5_base,
        top5_concentration_new_pct: concentrations.top5_new,
        top5_concentration_delta_pp: concentrations.top5_delta,
        top1_concentration_base_pct: concentrations.top1_base,
        top1_concentration_new_pct: concentrations.top1_new,
        top1_concentration_delta_pp: concentrations.top1_delta,
        movers: kept,
    }
}

/// A scope as filters of a table.
pub open spec fn scope_clauses(s: Seq<(Seq<char>, Seq<char>)>) -> Seq<Seq<char>> {
    s.map_values(|b: (Seq<char>, Seq<char>)| b.0 + "="@ + b.1)
}

/// A scope as filters of a table.
pub fn write_scope_clauses(scope: &[(String, String)]) -> (r: Vec<String>)
    ensures
        text::views(r@) == scope_clauses(scope::bindings(scope@)),
{
    let mut out: Vec<String> = Vec::new();
    let mut i: usize = 0;
    while i < scope.len()
        invariant
            i <= scope.len(),
            out.len() == i,
            forall|k: int|
                0 <= k < i ==> (#[trigger] out@[k])@ == scope@[k].0@ + "="@ + scope@[k].1@,
        decreases scope.len() - i,
    {
        out.push(cat3(scope[i].0.as_str(), "=", scope[i].1.as_str()));
        i += 1;
    }
    assert(text::views(out@) =~= scope_clauses(scope::bindings(scope@)));
    out
}

/// How many rows an analysis shows that a step is built on: four for each
/// mover that the step keeps, and ten at least.
pub open spec fn shown_rows(args: InvestigateWorkflowArgs) -> int {
    let four = if mover_limit(args) * 4 > usize::MAX {
        usize::MAX as int
    } else {
        mover_limit(args) * 4
    };
    if four > 10 {
        four
    } else {
        10
    }
}

/// The options of the analysis of one side of a step: the sums of the metric
/// along the dimension, over the rows of the scope.
pub fn step_analysis_options(
    args: &InvestigateWorkflowArgs,
    dimension: &str,
    metric: &str,
    scope: &[(String, String)],
) -> (r: AnalyzeArgs)
    ensures
        text::views(r.group_by@) == seq![dimension@],
        text::views(r.metrics@) == seq![metric@],
        planner::optional_text(r.rank_by) == Some(metric@),
        text::views(r.where_clauses@) == scope_clauses(scope::bindings(scope@)),
        r.agg == AggKind::Sum,
        r.top == shown_rows(*args),
        r.auto_group_k == 3,
        r.opportunity_min_records == 2,
        r.min_records == 1,
        r.top_insights == 0,
        !r.count_only,
        !r.normalize_text_groups,
        !r.word_freq,
        !r.exclude_blank_groups,
        r.percentiles@.len() == 0,
        r.alert_rule@.len() == 0,
        r.alert_top5_share is None,
        r.alert_blank_share is None,
        r.profile is None,
        r.date_column is None,
        r.time_grain is None,
        r.period is None,
        r.output_format == OutputFormat::Json,
{
    let limit: usize = step_mover_limit(args);
    let four: usize = if limit > usize::MAX / 4 {
        usize::MAX
    } else {
        limit * 4
    };
    let mut group_by: Vec<String> = Vec::new();
    group_by.push(dimension.to_owned());
    let mut metrics: Vec<String> = Vec::new();
    metrics.push(metric.to_owned());
    assert(text::views(group_by@) =~= seq![dimension@]);
    assert(text::views(metrics@) =~= seq![metric@]);
    AnalyzeArgs {
        input: None,
        postgres_url: None,
        postgres_ssl_mode: PostgresSslMode::Prefer,
        postgres_ca_file: None,
        query: None,
        query_file: None,
        profile: None,
        profile_config: None,
        group_by,
        auto_group_k: 3,
        metrics,
        count_only: false,
        agg: AggKind::Sum,
        percentiles: Vec::new(),
        normalize_text_groups: false,
        word_freq: false,
        date_column: None,
        time_grain: None,
        period: None,
        anchor_date: None,
        current_start: None,
        current_end: None,
        previous_start: None,
        previous_end: None,
        where_clauses: write_scope_clauses(scope),
        exclude_blank_groups: false,
        rank_by: Some(metric.to_owned()),
        top: if four > 10 {
            four
        } else {
            10
        },
        top_insights: 0,
        opportunity_min_records: 2,
        min_records: 1,
        alert_top5_share: None,
        alert_blank_share: None,
        alert_rule: Vec::new(),
        output_format: OutputFormat::Json,
        out: None,
    }
}

/// The figures that an analysis gives for a segment: those of its last group of
/// that name, under their own names, and zeros where it has none.
pub open spec fn are_last_figures(
    f: SegmentFigures,
    groups: Seq<Json>,
    metric: Seq<char>,
    name: Seq<char>,
) -> bool {
    ||| exists|k: int|
        0 <= k < groups.len() && group_name(#[trigger] groups[k]) == name && f.records
            == whole_under(groups[k], "count"@) && f.share_pct == number_under(
            groups[k],
            "count_share_pct"@,
        ) && f.value == (match member_named(groups[k], metric) {
            Some(x) => match x.number_spec() {
                Some(n) => n,
                None => Num { bits: 0 },
            },
            None => Num { bits: 0 },
        }) && forall|j: int| k < j < groups.len() ==> group_name(#[trigger] groups[j]) != name
    ||| (forall|j: int| 0 <= j < groups.len() ==> group_name(#[trigger] groups[j]) != name)
        && f.records == 0 && f.share_pct == (Num { bits: 0 }) && f.value == (Num { bits: 0 })
}

proof fn lemma_figures_of(groups: Seq<Json>, metric: Seq<char>, name: Seq<char>, n: int)
    requires
        0 <= n <= groups.len(),
        forall|j: int| n <= j < groups.len() ==> group_name(#[trigger] groups[j]) != name,
    ensures
        are_last_figures(figures_of(groups, metric, name, n), groups, metric, name),
    decreases n,
{
    if n > 0 {
        if group_name(groups[n - 1]) != name {
            lemma_figures_of(groups, metric, name, n - 1);
        } else {
            assert(group_name(groups[n - 1]) == name);
        }
    }
}

/// A segment that is compared has the figures of its own name on both sides, the
/// base ones from the base and the new ones from the new analysis.
pub proof fn law_pairs_have_their_own_figures(base: Json, new: Json, metric: Seq<char>)
    ensures
        forall|i: int|
            0 <= i < segment_pairs(base, new, metric).len() ==> ({
                let p = #[trigger] segment_pairs(base, new, metric)[i];
                &&& are_last_figures(p.base, list_under(base, "groups"@), metric, p.segment)
                &&& are_last_figures(p.new, list_under(new, "groups"@), metric, p.segment)
            }),
{
    let b = list_under(base, "groups"@);
    let n = list_under(new, "groups"@);
    let pairs = segment_pairs(base, new, metric);
    assert forall|i: int| 0 <= i < pairs.len() implies ({
        let p = #[trigger] pairs[i];
        &&& are_last_figures(p.base, b, metric, p.segment)
        &&& are_last_figures(p.new, n, metric, p.segment)
    }) by {
        lemma_figures_of(b, metric, pairs[i].segment, b.len() as int);
        lemma_figures_of(n, metric, pairs[i].segment, n.len() as int);
    }
}

/// The top share of an analysis is the largest share of its segments, and zero
/// where none is larger.
pub proof fn law_the_top_share_is_the_largest(
    figures: Seq<(Seq<char>, SegmentFigures)>,
    n: int,
)
    requires
        0 <= n <= figures.len(),
        forall|i: int| 0 <= i < figures.len() ==> !(#[trigger] figures[i]).1.share_pct.is_nan(),
    ensures
        forall|i: int|
            0 <= i < n ==> !largest_share(figures, n).lt((#[trigger] figures[i]).1.share_pct),
        largest_share(figures, n) == (Num { bits: 0 }) || exists|i: int|
            0 <= i < n && largest_share(figures, n) == (#[trigger] figures[i]).1.share_pct,
        !largest_share(figures, n).lt(Num { bits: 0 }),
        !largest_share(figures, n).is_nan(),
    decreases n,
{
    if n > 0 {
        law_the_top_share_is_the_largest(figures, n - 1);
        let front = largest_share(figures, n - 1);
        assert(!figures[n - 1].1.share_pct.is_nan());
        if !front.lt(figures[n - 1].1.share_pct) && front != (Num { bits: 0 }) {
            let i = choose|i: int| 0 <= i < n - 1 && front == (#[trigger] figures[i]).1.share_pct;
            assert(figures[i].1.share_pct == largest_share(figures, n));
        }
    }
}

/// An investigation of tables begins with the first dimension that is asked for,
/// or else the first that was found, and goes down along the given fields, or
/// else along the dimensions that follow the first.
pub proof fn law_dimensions_are_taken_in_order(
    args: InvestigateWorkflowArgs,
    base: Option<Json>,
    new: Option<Json>,
    inferred: Seq<Seq<char>>,
)
    ensures
        ({
            let all = if args.dimensions@.len() > 0 {
                text::views(args.dimensions@)
            } else {
                inferred
            };
            match chosen_dimensions(
                args,
                InvestigateInputKind::CsvDatasets,
                base,
                new,
                inferred,
            ) {
                Ok(d) => all.len() > 0 && d.0 == all[0] && if args.drill_fields@.len() > 0 {
                    d.1 == text::views(args.drill_fields@)
                } else {
                    seq![d.0] + d.1 == all
                },
                Err(_) => all.len() == 0,
            }
        }),
{
    let all = if args.dimensions@.len() > 0 {
        text::views(args.dimensions@)
    } else {
        inferred
    };
    if all.len() > 0 {
        assert(seq![all[0]] + all.skip(1) =~= all);
    }
}

/// A step keeps as many movers as are asked for or as branches may follow, the
/// larger of the two, and at least one.
pub proof fn law_steps_keep_enough_movers(args: InvestigateWorkflowArgs)
    ensures
        mover_limit(args) >= args.top_movers && mover_limit(args) >= args.max_branches
            && mover_limit(args) >= 1,
        mover_limit(args) == args.top_movers || mover_limit(args) == args.max_branches
            || mover_limit(args) == 1,
{
}

/// The metric of two artifacts is the one asked for, or else the one that both
/// name as their own; either way both show it.
pub proof fn law_the_metric_is_shown_by_both(
    base: Json,
    new: Json,
    requested: Option<Seq<char>>,
)
    ensures
        match shared_metric(base, new, requested) {
            Ok(m) => {
                &&& shows_metric(base, m) && shows_metric(new, m)
                &&& requested is Some ==> m == requested->0
                &&& requested is None ==> text_under(base, "primary_metric"@) == Some(m)
                    && text_under(new, "primary_metric"@) == Some(m)
            },
            Err(_) => match requested {
                Some(m) => !shows_metric(base, m) || !shows_metric(new, m),
                None => text_under(base, "primary_metric"@) is None || text_under(
                    base,
                    "primary_metric"@,
                ) != text_under(new, "primary_metric"@) || !shows_metric(
                    base,
                    text_under(base, "primary_metric"@)->0,
                ) || !shows_metric(new, text_under(base, "primary_metric"@)->0),
            },
        },
{
}

/// The grouping of two artifacts is what each of them names, where it names one;
/// two different ones are refused, and so is none at all.
pub proof fn law_the_grouping_is_named_by_both(base: Option<Json>, new: Option<Json>)
    ensures
        match shared_grouping(base, new) {
            Ok(g) => {
                &&& grouping_of(base) is Some || grouping_of(new) is Some
                &&& grouping_of(base) is Some ==> grouping_of(base) == Some(g)
                &&& grouping_of(new) is Some ==> grouping_of(new) == Some(g)
            },
            Err(_) => grouping_of(base) != grouping_of(new) || grouping_of(base) is None,
        },
{
}

/// A list of metrics that names a percentile of a metric declares the metric.
pub proof fn law_percentiles_declare_their_metric(metric: Seq<char>)
    ensures
        declares(metric, metric),
        declares(metric + "_p25"@, metric),
        declares(metric + "_p50"@, metric),
        declares(metric + "_p75"@, metric),
{
    lemma_cut_back(metric, "_p25"@);
    lemma_cut_back(metric, "_p50"@);
    lemma_cut_back(metric, "_p75"@);
    reveal_strlit("_p25");
    reveal_strlit("_p50");
    reveal_strlit("_p75");
    let a = metric + "_p50"@;
    let b = metric + "_p75"@;
    let n = metric.len() as int;
    assert(a[n + 2] == '5');
    assert(b[n + 2] == '7' && b[n + 3] == '5');
    if scan::ends_with(a, "_p25"@) {
        assert(a.subrange(n, n + 4)[2] == "_p25"@[2]);
    }
    if scan::ends_with(b, "_p25"@) {
        assert(b.subrange(n, n + 4)[2] == "_p25"@[2]);
    }
    if scan::ends_with(b, "_p50"@) {
        assert(b.subrange(n, n + 4)[2] == "_p50"@[2]);
    }
}

proof fn lemma_cut_back(s: Seq<char>, ending: Seq<char>)
    ensures
        without_ending(s + ending, ending) == Some(s),
{
    let t = s + ending;
    assert(t.subrange(s.len() as int, t.len() as int) =~= ending);
    assert(t.take(t.len() - ending.len()) =~= s);
}

/// A member is found under exactly its name before any that differs in case.
pub proof fn law_members_are_found_under_their_own_spelling(
    members: Vec<(String, Json)>,
    key: Seq<char>,
)
    ensures
        Json::Object(members).get_spec(key) is Some ==> member_named(Json::Object(members), key)
            == Json::Object(members).get_spec(key),
        match member_named(Json::Object(members), key) {
            Some(v) => exists|i: int|
                0 <= i < members@.len() && text::same_ignoring_case(
                    (#[trigger] members@[i]).0@,
                    key,
                ) && members@[i].1 == v,
            None => forall|i: int|
                0 <= i < members@.len() ==> !text::same_ignoring_case(
                    (#[trigger] members@[i]).0@,
                    key,
                ),
        },
{
    json::law_members_are_found_by_name(members, key);
    list::lemma_first_from(members@, member_like(key), 0);
    match Json::Object(members).get_spec(key) {
        Some(v) => {
            let i = choose|i: int|
                0 <= i < members@.len() && (#[trigger] members@[i]).0@ == key && members@[i].1 == v;
            assert(text::same_ignoring_case(members@[i].0@, key));
        },
        None => {
            match list::first_from(members@, member_like(key), 0) {
                Some(i) => {
                    assert(member_like(key)(members@[i]));
                    assert(text::same_ignoring_case(members@[i].0@, key));
                },
                None => {
                    assert forall|i: int|
                        0 <= i < members@.len() implies !text::same_ignoring_case(
                        (#[trigger] members@[i]).0@,
                        key,
                    ) by {
                        assert(!member_like(key)(members@[i]));
                    }
                },
            }
        },
    }
}

/// The figures of a group are its own: the records it counts, their share, and
/// its value of the metric; what it does not tell is zero.
pub proof fn law_group_figures_are_its_own(g: Json, metric: Seq<char>)
    ensures
        g.get_spec("count"@) is Some && g.get_spec("count"@)->0.whole_spec() is Some
            ==> group_figures(g, metric).records == g.get_spec("count"@)->0.whole_spec()->0,
        g.get_spec("count_share_pct"@) is Some && g.get_spec(
            "count_share_pct"@,
        )->0.number_spec() is Some ==> group_figures(g, metric).share_pct == g.get_spec(
            "count_share_pct"@,
        )->0.number_spec()->0,
        g.get_spec(metric) is Some && g.get_spec(metric)->0.number_spec() is Some
            ==> group_figures(g, metric).value == g.get_spec(metric)->0.number_spec()->0,
        g.get_spec("count"@) is None ==> group_figures(g, metric).records == 0,
{
}

/// A step measures what is asked for, or else what the new artifact names before
/// the base one.
pub proof fn law_steps_measure_what_is_asked_for(base: Json, new: Json, hint: Seq<char>)
    ensures
        step_metric(base, new, Some(hint)) == Some(hint),
        text_under(new, "primary_metric"@) is Some ==> step_metric(base, new, None) == text_under(
            new,
            "primary_metric"@,
        ),
        text_under(new, "primary_metric"@) is None ==> step_metric(base, new, None) == text_under(
            base,
            "primary_metric"@,
        ),
{
}

} // verus!
