//! Checking and completing the actions that a planner proposes.

use vstd::prelude::*;

use crate::args::InvestigateInputKind;
use crate::args::InvestigateWorkflowArgs;
use crate::investigation::{InvestigationMover, InvestigationStep};
use crate::list;
use crate::scan;
use crate::scan::{begins, mentions, join_text, replaced_char, words_of};
use crate::scope;
use crate::scope::{
    conflicting_scope_binding, copy_scope, format_scope, merge_scope, same_scope,
    scope_has_dimension, scope_is_superset_of, scope_value,
};
use crate::text;
use crate::text::{blank, cat3, cat5, eq_ignore_case, same, to_lower, trimmed};

verus! {

/// An action as a planner proposes it.
#[derive(Clone, Debug)]
pub struct LlmPlannerAction {
    pub action: String,
    pub reason: Option<String>,
    pub params: Option<LlmPlannerParams>,
}

/// The parameters of a proposed action. The filters bind each dimension once.
#[derive(Clone, Debug)]
pub struct LlmPlannerParams {
    pub metric: Option<String>,
    pub group_by: Option<Vec<String>>,
    pub filters: Option<Vec<(String, String)>>,
}

/// An action that can be carried out.
#[derive(Clone, Debug)]
pub enum InvestigationExecAction {
    AnalyzeCompare { group_by: String, scope: Vec<(String, String)>, reason: String },
    DrillDown { group_by: String, scope: Vec<(String, String)>, reason: String },
    Stop { reason: String },
}

/// What an action that can be carried out says.
pub enum ActionView {
    AnalyzeCompare {
        group_by: Seq<char>,
        scope: Seq<(Seq<char>, Seq<char>)>,
        reason: Seq<char>,
    },
    DrillDown { group_by: Seq<char>, scope: Seq<(Seq<char>, Seq<char>)>, reason: Seq<char> },
    Stop { reason: Seq<char> },
}

impl View for InvestigationExecAction {
    type V = ActionView;

    open spec fn view(&self) -> ActionView {
        match self {
            InvestigationExecAction::AnalyzeCompare { group_by, scope, reason } => {
                ActionView::AnalyzeCompare {
                    group_by: group_by@,
                    scope: scope::bindings(scope@),
                    reason: reason@,
                }
            },
            InvestigationExecAction::DrillDown { group_by, scope, reason } => {
                ActionView::DrillDown {
                    group_by: group_by@,
                    scope: scope::bindings(scope@),
                    reason: reason@,
                }
            },
            InvestigationExecAction::Stop { reason } => ActionView::Stop { reason: reason@ },
        }
    }
}

// ---------------------------------------------------------------------------
// Reasons
// ---------------------------------------------------------------------------

/// Phrases that mark a reason as empty of content wherever they stand.
pub open spec fn has_weak_phrase(lower: Seq<char>) -> bool {
    scan::contains(lower, "not strong enough"@) || scan::contains(lower, "too shallow"@)
        || scan::contains(lower, "at max depth"@) || scan::contains(lower, "results are weak"@)
        || scan::contains(lower, "result is weak"@) || scan::contains(lower, "result is null"@)
        || scan::contains(lower, "results are empty"@) || scan::contains(lower, "no strong drivers"@)
}

/// A reason that says nothing: a placeholder, or a remark on the previous result.
pub open spec fn low_signal(lower: Seq<char>) -> bool {
    lower == "previous result"@ || lower == "previous results"@ || lower == "previousresult"@
        || lower == "n/a"@ || lower == "none"@ || lower == "unknown"@ || scan::starts_with(
        lower,
        "previous result"@,
    ) || scan::starts_with(lower, "previous results"@) || has_weak_phrase(lower) || lower
        == "strongest valid driver"@
}

/// Whether a reason, in lower case, says nothing.
pub fn planner_reason_is_low_signal(lower: &str) -> (r: bool)
    ensures
        r == low_signal(lower@),
{
    if same(lower, "previous result") || same(lower, "previous results") || same(
        lower,
        "previousresult",
    ) || same(lower, "n/a") || same(lower, "none") || same(lower, "unknown") {
        return true;
    }
    begins(lower, "previous result") || begins(lower, "previous results") || mentions(
        lower,
        "not strong enough",
    ) || mentions(lower, "too shallow") || mentions(lower, "at max depth") || mentions(lower, "results are weak")
        || mentions(lower, "result is weak") || mentions(lower, "result is null") || mentions(
        lower,
        "results are empty",
    ) || mentions(lower, "no strong drivers") || same(lower, "strongest valid driver")
}

/// The reason given for an action that comes without a usable one.
pub open spec fn stock_reason(action: Seq<char>) -> Seq<char> {
    if action == "analyze_compare"@ {
        "planner selected top-level comparison"@
    } else if action == "drill_down"@ {
        "planner selected drill-down from prior top mover"@
    } else if action == "stop"@ {
        "planner selected stop"@
    } else {
        "planner decision"@
    }
}

/// The reason given for an action that comes without a usable one.
pub fn default_planner_reason(action: &str) -> (r: &'static str)
    ensures
        r@ == stock_reason(action@),
{
    if same(action, "analyze_compare") {
        "planner selected top-level comparison"
    } else if same(action, "drill_down") {
        "planner selected drill-down from prior top mover"
    } else if same(action, "stop") {
        "planner selected stop"
    } else {
        "planner decision"
    }
}

/// A reason on one line: underscores count as spaces, and the words are
/// separated by single spaces.
pub open spec fn one_line(s: Seq<char>) -> Seq<char> {
    scan::join(scan::words(scan::replace_char(s, '_', " "@)), " "@)
}

/// The number of bytes of a text in UTF-8.
pub open spec fn byte_len(s: Seq<char>) -> usize {
    vstd::utf8::encode_utf8(s).len() as usize
}

/// The reason that is reported for a proposed one: itself on one line, or the
/// stock reason where it is blank, shorter than eight bytes or says nothing.
pub open spec fn reported_reason(action: Seq<char>, raw: Seq<char>) -> Seq<char> {
    let line = one_line(text::trim(raw));
    if text::is_blank(raw) || byte_len(line) < 8 || low_signal(text::lower(line)) {
        stock_reason(action)
    } else {
        line
    }
}

/// The reason that is reported for a proposed one.
pub fn normalize_planner_reason(action: &str, raw_reason: &str) -> (r: String)
    ensures
        r@ == reported_reason(action@, raw_reason@),
{
    let t = trimmed(raw_reason);
    if t.as_str().is_empty() {
        return default_planner_reason(action).to_owned();
    }
    let spaced = replaced_char(t.as_str(), '_', " ");
    let words = words_of(spaced.as_str());
    let line = join_text(&words, " ");
    let l = to_lower(line.as_str());
    if line.as_str().len() < 8 || planner_reason_is_low_signal(l.as_str()) {
        return default_planner_reason(action).to_owned();
    }
    line
}

// ---------------------------------------------------------------------------
// Dimensions and scopes
// ---------------------------------------------------------------------------

/// Names that differ from the given one at most in case.
pub open spec fn named(name: Seq<char>) -> spec_fn(Seq<char>) -> bool {
    |d: Seq<char>| text::same_ignoring_case(d, name)
}

/// The available dimension that a name means.
pub open spec fn resolved(name: Seq<char>, dims: Seq<Seq<char>>) -> Option<Seq<char>> {
    list::first(dims, named(name))
}

/// The available dimension that a name means, whatever the case of its letters.
pub fn resolve_dimension_name(requested: &str, available_dimensions: &[String]) -> (r: Option<
    String,
>)
    ensures
        match r {
            Some(d) => resolved(requested@, text::views(available_dimensions@)) == Some(d@),
            None => resolved(requested@, text::views(available_dimensions@)) is None,
        },
{
    let ghost dims = text::views(available_dimensions@);
    let mut i: usize = 0;
    while i < available_dimensions.len()
        invariant
            i <= available_dimensions.len(),
            dims == text::views(available_dimensions@),
            list::first_from(dims, named(requested@), i as int) == list::first_from(
                dims,
                named(requested@),
                0,
            ),
        decreases available_dimensions.len() - i,
    {
        if eq_ignore_case(available_dimensions[i].as_str(), requested) {
            return Some(available_dimensions[i].clone());
        }
        i += 1;
    }
    None
}

/// Filters that name no available dimension.
pub open spec fn unknown_filter(dims: Seq<Seq<char>>) -> spec_fn((Seq<char>, Seq<char>)) -> bool {
    |f: (Seq<char>, Seq<char>)| resolved(f.0, dims) is None
}

/// The scope that the filters describe, in the order of the dimensions.
pub open spec fn filtered_dims(
    filters: Seq<(Seq<char>, Seq<char>)>,
    dims: Seq<Seq<char>>,
) -> Result<Seq<(Seq<char>, Seq<char>)>, Seq<char>>
    decreases dims.len(),
{
    if dims.len() == 0 {
        Ok(Seq::empty())
    } else {
        match filtered_dims(filters, dims.drop_last()) {
            Err(e) => Err(e),
            Ok(front) => match scope::value_of(filters, dims.last()) {
                None => Ok(front),
                Some(v) => if text::is_blank(v) {
                    Err("llm filter for '"@ + dims.last() + "' is blank"@)
                } else {
                    Ok(front.push((dims.last(), text::trim(v))))
                },
            },
        }
    }
}

/// The scope that the filters describe, or why they describe none: a filter
/// names no available dimension, or binds a blank value.
pub open spec fn scope_of_filters(
    filters: Option<Seq<(Seq<char>, Seq<char>)>>,
    dims: Seq<Seq<char>>,
) -> Result<Seq<(Seq<char>, Seq<char>)>, Seq<char>> {
    match filters {
        None => Ok(Seq::empty()),
        Some(fs) => match list::first(fs, unknown_filter(dims)) {
            Some(f) => Err("llm filter uses unknown dimension '"@ + f.0 + "'"@),
            None => filtered_dims(fs, dims),
        },
    }
}

pub open spec fn optional_bindings(filters: Option<Vec<(String, String)>>) -> Option<
    Seq<(Seq<char>, Seq<char>)>,
> {
    match filters {
        Some(fs) => Some(scope::bindings(fs@)),
        None => None,
    }
}

/// A list of bindings or a message, as a result's view.
pub open spec fn scope_result(r: Result<Vec<(String, String)>, String>) -> Result<
    Seq<(Seq<char>, Seq<char>)>,
    Seq<char>,
> {
    match r {
        Ok(s) => Ok(scope::bindings(s@)),
        Err(e) => Err(e@),
    }
}

/// The scope that the filters describe, in the order of the dimensions.
#[verifier::loop_isolation(false)]
pub fn ordered_scope_from_filters(
    filters: &Option<Vec<(String, String)>>,
    available_dimensions: &[String],
) -> (r: Result<Vec<(String, String)>, String>)
    ensures
        scope_result(r) == scope_of_filters(
            optional_bindings(*filters),
            text::views(available_dimensions@),
        ),
{
    let ghost dims = text::views(available_dimensions@);
    match filters {
        None => {
            let none: Vec<(String, String)> = Vec::new();
            assert(scope::bindings(none@) =~= Seq::empty());
            Ok(none)
        },
        Some(fs) => {
            let ghost all = scope::bindings(fs@);
            let ghost p = unknown_filter(dims);
            let mut i: usize = 0;
            while i < fs.len()
                invariant
                    i <= fs.len(),
                    dims == text::views(available_dimensions@),
                    all == scope::bindings(fs@),
                    p == unknown_filter(dims),
                    list::first_from(all, p, i as int) == list::first_from(all, p, 0),
                decreases fs.len() - i,
            {
                if resolve_dimension_name(fs[i].0.as_str(), available_dimensions).is_none() {
                    assert(all[i as int].0 == fs@[i as int].0@);
                    assert(p(all[i as int]));
                    return Err(
                        cat3("llm filter uses unknown dimension '", fs[i].0.as_str(), "'"),
                    );
                }
                i += 1;
            }
            let mut out: Vec<(String, String)> = Vec::new();
            let mut k: usize = 0;
            assert(scope::bindings(out@) =~= Seq::empty());
            while k < available_dimensions.len()
                invariant
                    k <= available_dimensions.len(),
                    dims == text::views(available_dimensions@),
                    all == scope::bindings(fs@),
                    list::first_from(all, unknown_filter(dims), 0) is None,
                    filtered_dims(all, dims.take(k as int)) == Ok::<_, Seq<char>>(
                        scope::bindings(out@),
                    ),
                decreases available_dimensions.len() - k,
            {
                assert(dims.take(k + 1).drop_last() =~= dims.take(k as int));
                let dim = &available_dimensions[k];
                match scope_value(fs.as_slice(), dim.as_str()) {
                    Some(v) => {
                        if blank(v) {
                            proof {
                                lemma_filter_error(all, dims, k + 1);
                            }
                            return Err(cat3("llm filter for '", dim.as_str(), "' is blank"));
                        }
                        let ghost before = scope::bindings(out@);
                        out.push((dim.clone(), trimmed(v)));
                        assert(scope::bindings(out@) =~= before.push((dim@, text::trim(v@))));
                    },
                    None => {},
                }
                k += 1;
            }
            assert(dims.take(dims.len() as int) =~= dims);
            Ok(out)
        },
    }
}

proof fn lemma_filter_error(
    filters: Seq<(Seq<char>, Seq<char>)>,
    dims: Seq<Seq<char>>,
    k: int,
)
    requires
        0 <= k <= dims.len(),
        filtered_dims(filters, dims.take(k)) is Err,
    ensures
        filtered_dims(filters, dims) == filtered_dims(filters, dims.take(k)),
    decreases dims.len() - k,
{
    if k == dims.len() {
        assert(dims.take(k) =~= dims);
    } else {
        assert(dims.take(k + 1).drop_last() =~= dims.take(k));
        lemma_filter_error(filters, dims, k + 1);
    }
}

/// A segment into which an investigation can go down.
pub open spec fn drillable(segment: Seq<char>) -> bool {
    !text::is_blank(segment) && segment != "(blank)"@ && segment != "(unknown)"@
}

/// Movers whose segment an investigation can go down into.
pub open spec fn drillable_mover() -> spec_fn(InvestigationMover) -> bool {
    |m: InvestigationMover| drillable(m.segment@)
}

/// The index of the first mover whose segment an investigation can go down into.
pub fn first_drillable(movers: &Vec<InvestigationMover>) -> (r: Option<usize>)
    ensures
        match r {
            Some(i) => i < movers.len() && list::first_from(movers@, drillable_mover(), 0) == Some(
                i as int,
            ),
            None => list::first_from(movers@, drillable_mover(), 0) is None,
        },
{
    let mut i: usize = 0;
    while i < movers.len()
        invariant
            i <= movers.len(),
            list::first_from(movers@, drillable_mover(), i as int) == list::first_from(
                movers@,
                drillable_mover(),
                0,
            ),
        decreases movers.len() - i,
    {
        let seg = movers[i].segment.as_str();
        if !blank(seg) && !same(seg, "(blank)") && !same(seg, "(unknown)") {
            return Some(i);
        }
        i += 1;
    }
    None
}

/// The scope of the last step, narrowed to its first drillable segment.
pub open spec fn next_scope(steps: Seq<InvestigationStep>) -> Option<
    Seq<(Seq<char>, Seq<char>)>,
> {
    if steps.len() == 0 {
        None
    } else {
        match list::first(steps.last().movers@, drillable_mover()) {
            Some(m) => Some(
                scope::bindings(steps.last().scope@).push((steps.last().dimension@, m.segment@)),
            ),
            None => None,
        }
    }
}

pub open spec fn optional_scope(r: Option<Vec<(String, String)>>) -> Option<
    Seq<(Seq<char>, Seq<char>)>,
> {
    match r {
        Some(s) => Some(scope::bindings(s@)),
        None => None,
    }
}

/// The scope of the last step, narrowed to its first drillable segment.
pub fn infer_scope_from_last_step(steps: &[InvestigationStep]) -> (r: Option<
    Vec<(String, String)>,
>)
    ensures
        optional_scope(r) == next_scope(steps@),
{
    if steps.len() == 0 {
        return None;
    }
    let last = &steps[steps.len() - 1];
    match first_drillable(&last.movers) {
        Some(i) => {
            let mut out = copy_scope(last.scope.as_slice());
            let ghost before = scope::bindings(out@);
            out.push((last.dimension.clone(), last.movers[i].segment.clone()));
            assert(scope::bindings(out@) =~= before.push(
                (last.dimension@, last.movers@[i as int].segment@),
            ));
            Some(out)
        },
        None => None,
    }
}

/// Dimensions that neither the scope nor the last step uses.
pub open spec fn unused(
    steps: Seq<InvestigationStep>,
    scope: Seq<(Seq<char>, Seq<char>)>,
) -> spec_fn(Seq<char>) -> bool {
    |d: Seq<char>|
        !scope::has_dimension(scope, d) && !text::same_ignoring_case(steps.last().dimension@, d)
}

/// The dimension that fits the context: the first one at the beginning; later,
/// going down or within a scope, the first unused one, else the first one.
pub open spec fn fitting_dimension(
    action: Seq<char>,
    steps: Seq<InvestigationStep>,
    dims: Seq<Seq<char>>,
    scope: Seq<(Seq<char>, Seq<char>)>,
) -> Option<Seq<char>> {
    if dims.len() == 0 {
        None
    } else if steps.len() == 0 {
        Some(dims[0])
    } else if action == "drill_down"@ || scope.len() > 0 {
        match list::first(dims, unused(steps, scope)) {
            Some(d) => Some(d),
            None => Some(dims[0]),
        }
    } else {
        Some(dims[0])
    }
}

pub open spec fn optional_text(r: Option<String>) -> Option<Seq<char>> {
    match r {
        Some(s) => Some(s@),
        None => None,
    }
}

/// The dimension that fits the context.
#[verifier::loop_isolation(false)]
pub fn infer_group_by_from_context(
    action: &str,
    steps: &[InvestigationStep],
    available_dimensions: &[String],
    scope: &[(String, String)],
) -> (r: Option<String>)
    ensures
        optional_text(r) == fitting_dimension(
            action@,
            steps@,
            text::views(available_dimensions@),
            scope::bindings(scope@),
        ),
{
    let ghost dims = text::views(available_dimensions@);
    if available_dimensions.len() == 0 {
        return None;
    }
    assert(dims[0] == available_dimensions@[0]@);
    if steps.len() == 0 {
        return Some(available_dimensions[0].clone());
    }
    if same(action, "drill_down") || scope.len() > 0 {
        let last = &steps[steps.len() - 1];
        let ghost p = unused(steps@, scope::bindings(scope@));
        let mut i: usize = 0;
        while i < available_dimensions.len()
            invariant
                i <= available_dimensions.len(),
                steps.len() > 0,
                *last == steps@.last(),
                dims == text::views(available_dimensions@),
                p == unused(steps@, scope::bindings(scope@)),
                list::first_from(dims, p, i as int) == list::first_from(dims, p, 0),
            decreases available_dimensions.len() - i,
        {
            let d = available_dimensions[i].as_str();
            assert(dims[i as int] == d@);
            if !scope_has_dimension(scope, d) && !eq_ignore_case(last.dimension.as_str(), d) {
                return Some(available_dimensions[i].clone());
            }
            i += 1;
        }
    }
    Some(available_dimensions[0].clone())
}

/// A step has already compared by this dimension within this very scope.
pub open spec fn repeated(
    steps: Seq<InvestigationStep>,
    group_by: Seq<char>,
    scope: Seq<(Seq<char>, Seq<char>)>,
) -> bool {
    exists|i: int|
        0 <= i < steps.len() && text::same_ignoring_case(
            (#[trigger] steps[i]).dimension@,
            group_by,
        ) && scope::bindings(steps[i].scope@) == scope
}

/// Whether a step has already compared by this dimension within this very scope.
pub fn is_repeated_path(
    steps: &[InvestigationStep],
    group_by: &str,
    scope: &[(String, String)],
) -> (r: bool)
    ensures
        r == repeated(steps@, group_by@, scope::bindings(scope@)),
{
    let mut i: usize = 0;
    while i < steps.len()
        invariant
            i <= steps.len(),
            forall|j: int|
                0 <= j < i ==> !(text::same_ignoring_case(
                    (#[trigger] steps@[j]).dimension@,
                    group_by@,
                ) && scope::bindings(steps@[j].scope@) == scope::bindings(scope@)),
        decreases steps.len() - i,
    {
        if eq_ignore_case(steps[i].dimension.as_str(), group_by) && same_scope(
            steps[i].scope.as_slice(),
            scope,
        ) {
            return true;
        }
        i += 1;
    }
    false
}

// ---------------------------------------------------------------------------
// Validation
// ---------------------------------------------------------------------------

/// A comparison that an action leads to: by which dimension, within which
/// scope, and whether it goes down from an earlier step.
pub struct PathView {
    pub drill: bool,
    pub group_by: Seq<char>,
    pub scope: Seq<(Seq<char>, Seq<char>)>,
}

struct PlannedPath {
    drill: bool,
    group_by: String,
    scope: Vec<(String, String)>,
}

impl PlannedPath {
    spec fn view(&self) -> PathView {
        PathView {
            drill: self.drill,
            group_by: self.group_by@,
            scope: scope::bindings(self.scope@),
        }
    }
}

spec fn path_result(r: Result<PlannedPath, String>) -> Result<PathView, Seq<char>> {
    match r {
        Ok(p) => Ok(p@),
        Err(e) => Err(e@),
    }
}

pub open spec fn repeated_message(
    group_by: Seq<char>,
    scope: Seq<(Seq<char>, Seq<char>)>,
) -> Seq<char> {
    "llm repeated a previously executed path (dimension='"@ + group_by + "' scope="@
        + scope::scope_text(scope) + ")"@
}

fn repeated_error(group_by: &str, scope: &[(String, String)]) -> (r: String)
    ensures
        r@ == repeated_message(group_by@, scope::bindings(scope@)),
{
    let s = format_scope(scope);
    cat5(
        "llm repeated a previously executed path (dimension='",
        group_by,
        "' scope=",
        s.as_str(),
        ")",
    )
}

/// The dimension that the proposal names, or the fitting one where it names none.
pub open spec fn asked_dimension(
    action: Seq<char>,
    group_by_raw: Seq<char>,
    scope: Seq<(Seq<char>, Seq<char>)>,
    dims: Seq<Seq<char>>,
    steps: Seq<InvestigationStep>,
) -> Result<Seq<char>, Seq<char>> {
    if text::is_blank(group_by_raw) {
        match fitting_dimension(action, steps, dims, scope) {
            Some(d) => Ok(d),
            None => Err("llm action requires params.group_by[0]"@),
        }
    } else {
        match resolved(group_by_raw, dims) {
            Some(d) => Ok(d),
            None => Err("llm requested unknown dimension '"@ + group_by_raw + "'"@),
        }
    }
}

/// The path as asked for: going down needs an earlier step, datasets and a
/// scope; the first comparison is of the whole data.
pub open spec fn asked_path(
    action: Seq<char>,
    group_by_raw: Seq<char>,
    scope: Seq<(Seq<char>, Seq<char>)>,
    dims: Seq<Seq<char>>,
    steps: Seq<InvestigationStep>,
    kind: InvestigateInputKind,
) -> Result<PathView, Seq<char>> {
    let drill = action == "drill_down"@;
    if steps.len() == 0 && drill {
        Err("first llm action must be analyze_compare"@)
    } else {
        match asked_dimension(action, group_by_raw, scope, dims, steps) {
            Err(e) => Err(e),
            Ok(group_by) => if !drill {
                Ok(
                    PathView {
                        drill,
                        group_by,
                        scope: if steps.len() == 0 {
                            Seq::empty()
                        } else {
                            scope
                        },
                    },
                )
            } else if kind == InvestigateInputKind::JsonArtifacts {
                Err("drill_down is unsupported for JSON artifact mode"@)
            } else if scope.len() > 0 {
                Ok(PathView { drill, group_by, scope })
            } else {
                match next_scope(steps) {
                    Some(s) => Ok(PathView { drill, group_by, scope: s }),
                    None => Err("drill_down requires non-empty params.filters"@),
                }
            },
        }
    }
}

fn ask(
    action: &str,
    group_by_raw: &str,
    scope: Vec<(String, String)>,
    dims: &[String],
    steps: &[InvestigationStep],
    kind: InvestigateInputKind,
) -> (r: Result<PlannedPath, String>)
    ensures
        path_result(r) == asked_path(
            action@,
            group_by_raw@,
            scope::bindings(scope@),
            text::views(dims@),
            steps@,
            kind,
        ),
{
    let drill: bool = same(action, "drill_down");
    if steps.len() == 0 && drill {
        return Err("first llm action must be analyze_compare".to_owned());
    }
    let group_by = if blank(group_by_raw) {
        match infer_group_by_from_context(action, steps, dims, scope.as_slice()) {
            Some(d) => d,
            None => {
                return Err("llm action requires params.group_by[0]".to_owned());
            },
        }
    } else {
        match resolve_dimension_name(group_by_raw, dims) {
            Some(d) => d,
            None => {
                return Err(cat3("llm requested unknown dimension '", group_by_raw, "'"));
            },
        }
    };
    if !drill {
        if steps.len() == 0 {
            let none: Vec<(String, String)> = Vec::new();
            assert(scope::bindings(none@) =~= Seq::empty());
            return Ok(PlannedPath { drill, group_by, scope: none });
        }
        return Ok(PlannedPath { drill, group_by, scope });
    }
    if kind == InvestigateInputKind::JsonArtifacts {
        return Err("drill_down is unsupported for JSON artifact mode".to_owned());
    }
    if scope.len() > 0 {
        return Ok(PlannedPath { drill, group_by, scope });
    }
    match infer_scope_from_last_step(steps) {
        Some(s) => Ok(PlannedPath { drill, group_by, scope: s }),
        None => Err("drill_down requires non-empty params.filters".to_owned()),
    }
}

/// The path within the scope of the last step: a scope that contradicts it is
/// refused, and one that leaves part of it out is completed.
pub open spec fn path_within_prior(path: PathView, steps: Seq<InvestigationStep>) -> Result<
    PathView,
    Seq<char>,
> {
    if steps.len() == 0 {
        Ok(path)
    } else {
        let prior = scope::bindings(steps.last().scope@);
        if prior.len() == 0 || path.scope.len() == 0 {
            Ok(path)
        } else {
            match scope::conflict(prior, path.scope) {
                Some(c) => Err(
                    "llm scope conflicts with prior scope on "@ + c.0 + " ('"@ + c.1 + "' vs '"@
                        + c.2 + "')"@,
                ),
                None => if scope::superset(path.scope, prior) {
                    Ok(path)
                } else {
                    Ok(PathView { scope: scope::merged(prior, path.scope), ..path })
                },
            }
        }
    }
}

fn keep_within_prior(path: PlannedPath, steps: &[InvestigationStep]) -> (r: Result<
    PlannedPath,
    String,
>)
    ensures
        path_result(r) == path_within_prior(path@, steps@),
{
    if steps.len() == 0 {
        return Ok(path);
    }
    let last = &steps[steps.len() - 1];
    if last.scope.len() == 0 || path.scope.len() == 0 {
        return Ok(path);
    }
    match conflicting_scope_binding(last.scope.as_slice(), path.scope.as_slice()) {
        Some(c) => {
            let mut e = cat5(
                "llm scope conflicts with prior scope on ",
                c.0.as_str(),
                " ('",
                c.1.as_str(),
                "' vs '",
            );
            e.append(c.2.as_str());
            e.append("')");
            return Err(e);
        },
        None => {},
    }
    if scope_is_superset_of(path.scope.as_slice(), last.scope.as_slice()) {
        return Ok(path);
    }
    let merged = merge_scope(last.scope.as_slice(), path.scope.as_slice());
    Ok(PlannedPath { drill: path.drill, group_by: path.group_by, scope: merged })
}

/// The path by a dimension that its scope does not fix, where there is one.
pub open spec fn path_off_scope(
    path: PathView,
    dims: Seq<Seq<char>>,
    steps: Seq<InvestigationStep>,
) -> Result<PathView, Seq<char>> {
    if !scope::has_dimension(path.scope, path.group_by) {
        Ok(path)
    } else {
        match fitting_dimension("drill_down"@, steps, dims, path.scope) {
            None => Err(
                "llm selected group_by '"@ + path.group_by
                    + "' which is already fixed by scope="@ + scope::scope_text(path.scope),
            ),
            Some(d) => if repeated(steps, d, path.scope) {
                Err(repeated_message(d, path.scope))
            } else {
                Ok(PathView { group_by: d, ..path })
            },
        }
    }
}

fn move_off_scope(path: PlannedPath, dims: &[String], steps: &[InvestigationStep]) -> (r: Result<
    PlannedPath,
    String,
>)
    ensures
        path_result(r) == path_off_scope(path@, text::views(dims@), steps@),
{
    if !scope_has_dimension(path.scope.as_slice(), path.group_by.as_str()) {
        return Ok(path);
    }
    match infer_group_by_from_context("drill_down", steps, dims, path.scope.as_slice()) {
        None => {
            let s = format_scope(path.scope.as_slice());
            let mut e = cat3(
                "llm selected group_by '",
                path.group_by.as_str(),
                "' which is already fixed by scope=",
            );
            e.append(s.as_str());
            Err(e)
        },
        Some(d) => {
            if is_repeated_path(steps, d.as_str(), path.scope.as_slice()) {
                return Err(repeated_error(d.as_str(), path.scope.as_slice()));
            }
            Ok(PlannedPath { drill: path.drill, group_by: d, scope: path.scope })
        },
    }
}

/// The path down into the last step's first drillable segment.
pub open spec fn descent(
    dims: Seq<Seq<char>>,
    steps: Seq<InvestigationStep>,
) -> Option<PathView> {
    match next_scope(steps) {
        None => None,
        Some(s) => match fitting_dimension("drill_down"@, steps, dims, s) {
            None => None,
            Some(d) => Some(PathView { drill: true, group_by: d, scope: s }),
        },
    }
}

spec fn optional_path(r: Option<PlannedPath>) -> Option<PathView> {
    match r {
        Some(p) => Some(p@),
        None => None,
    }
}

fn descend(dims: &[String], steps: &[InvestigationStep]) -> (r: Option<PlannedPath>)
    ensures
        optional_path(r) == descent(text::views(dims@), steps@),
{
    match infer_scope_from_last_step(steps) {
        None => None,
        Some(s) => match infer_group_by_from_context("drill_down", steps, dims, s.as_slice()) {
            None => None,
            Some(d) => Some(PlannedPath { drill: true, group_by: d, scope: s }),
        },
    }
}

/// A later comparison of the whole data goes down instead.
pub open spec fn path_going_down(
    path: PathView,
    dims: Seq<Seq<char>>,
    steps: Seq<InvestigationStep>,
    kind: InvestigateInputKind,
) -> Result<PathView, Seq<char>> {
    if path.drill || steps.len() == 0 || path.scope.len() > 0 || kind
        == InvestigateInputKind::JsonArtifacts {
        Ok(path)
    } else if next_scope(steps) is None {
        Err("analyze_compare after first step requires a drillable prior result"@)
    } else {
        match descent(dims, steps) {
            None => Err("could not infer next drill dimension"@),
            Some(d) => if repeated(steps, d.group_by, d.scope) {
                Err(repeated_message(d.group_by, d.scope))
            } else {
                Ok(d)
            },
        }
    }
}

fn send_down(
    path: PlannedPath,
    dims: &[String],
    steps: &[InvestigationStep],
    kind: InvestigateInputKind,
) -> (r: Result<PlannedPath, String>)
    ensures
        path_result(r) == path_going_down(path@, text::views(dims@), steps@, kind),
{
    if path.drill || steps.len() == 0 || path.scope.len() > 0 || kind
        == InvestigateInputKind::JsonArtifacts {
        return Ok(path);
    }
    if infer_scope_from_last_step(steps).is_none() {
        return Err(
            "analyze_compare after first step requires a drillable prior result".to_owned(),
        );
    }
    match descend(dims, steps) {
        None => Err("could not infer next drill dimension".to_owned()),
        Some(d) => {
            if is_repeated_path(steps, d.group_by.as_str(), d.scope.as_slice()) {
                return Err(repeated_error(d.group_by.as_str(), d.scope.as_slice()));
            }
            Ok(d)
        },
    }
}

/// A comparison that was made before turns into a descent that was not, where
/// there is one.
pub open spec fn path_pivoted(
    path: PathView,
    dims: Seq<Seq<char>>,
    steps: Seq<InvestigationStep>,
    kind: InvestigateInputKind,
) -> PathView {
    if !repeated(steps, path.group_by, path.scope) || path.drill || kind
        == InvestigateInputKind::JsonArtifacts {
        path
    } else {
        match descent(dims, steps) {
            Some(d) => if repeated(steps, d.group_by, d.scope) {
                path
            } else {
                d
            },
            None => path,
        }
    }
}

fn pivot(
    path: PlannedPath,
    dims: &[String],
    steps: &[InvestigationStep],
    kind: InvestigateInputKind,
) -> (r: PlannedPath)
    ensures
        r@ == path_pivoted(path@, text::views(dims@), steps@, kind),
{
    if path.drill || kind == InvestigateInputKind::JsonArtifacts {
        return path;
    }
    if !is_repeated_path(steps, path.group_by.as_str(), path.scope.as_slice()) {
        return path;
    }
    match descend(dims, steps) {
        Some(d) => {
            if is_repeated_path(steps, d.group_by.as_str(), d.scope.as_slice()) {
                path
            } else {
                d
            }
        },
        None => path,
    }
}

/// A path that was gone before is replaced by one along the fitting dimension,
/// or refused.
pub open spec fn path_not_repeated(
    action: Seq<char>,
    path: PathView,
    dims: Seq<Seq<char>>,
    steps: Seq<InvestigationStep>,
) -> Result<PathView, Seq<char>> {
    if !repeated(steps, path.group_by, path.scope) {
        Ok(path)
    } else {
        match fitting_dimension(action, steps, dims, path.scope) {
            Some(d) => if !text::same_ignoring_case(d, path.group_by) && !repeated(
                steps,
                d,
                path.scope,
            ) {
                Ok(PathView { group_by: d, ..path })
            } else {
                Err(repeated_message(path.group_by, path.scope))
            },
            None => Err(repeated_message(path.group_by, path.scope)),
        }
    }
}

fn avoid_repetition(
    action: &str,
    path: PlannedPath,
    dims: &[String],
    steps: &[InvestigationStep],
) -> (r: Result<PlannedPath, String>)
    ensures
        path_result(r) == path_not_repeated(action@, path@, text::views(dims@), steps@),
{
    if !is_repeated_path(steps, path.group_by.as_str(), path.scope.as_slice()) {
        return Ok(path);
    }
    match infer_group_by_from_context(action, steps, dims, path.scope.as_slice()) {
        Some(d) => {
            if !eq_ignore_case(d.as_str(), path.group_by.as_str()) && !is_repeated_path(
                steps,
                d.as_str(),
                path.scope.as_slice(),
            ) {
                Ok(PlannedPath { drill: path.drill, group_by: d, scope: path.scope })
            } else {
                Err(repeated_error(path.group_by.as_str(), path.scope.as_slice()))
            }
        },
        None => Err(repeated_error(path.group_by.as_str(), path.scope.as_slice())),
    }
}

/// The comparison that a proposed `analyze_compare` or `drill_down` leads to.
pub open spec fn planned_path(
    action: Seq<char>,
    group_by_raw: Seq<char>,
    scope: Seq<(Seq<char>, Seq<char>)>,
    dims: Seq<Seq<char>>,
    steps: Seq<InvestigationStep>,
    kind: InvestigateInputKind,
) -> Result<PathView, Seq<char>> {
    match asked_path(action, group_by_raw, scope, dims, steps, kind) {
        Err(e) => Err(e),
        Ok(a) => match path_within_prior(a, steps) {
            Err(e) => Err(e),
            Ok(b) => match path_off_scope(b, dims, steps) {
                Err(e) => Err(e),
                Ok(c) => match path_going_down(c, dims, steps, kind) {
                    Err(e) => Err(e),
                    Ok(d) => path_not_repeated(
                        action,
                        path_pivoted(d, dims, steps, kind),
                        dims,
                        steps,
                    ),
                },
            },
        },
    }
}

fn plan_path(
    action: &str,
    group_by_raw: &str,
    scope: Vec<(String, String)>,
    dims: &[String],
    steps: &[InvestigationStep],
    kind: InvestigateInputKind,
) -> (r: Result<PlannedPath, String>)
    ensures
        path_result(r) == planned_path(
            action@,
            group_by_raw@,
            scope::bindings(scope@),
            text::views(dims@),
            steps@,
            kind,
        ),
{
    let a = match ask(action, group_by_raw, scope, dims, steps, kind) {
        Ok(p) => p,
        Err(e) => {
            return Err(e);
        },
    };
    let b = match keep_within_prior(a, steps) {
        Ok(p) => p,
        Err(e) => {
            return Err(e);
        },
    };
    let c = match move_off_scope(b, dims, steps) {
        Ok(p) => p,
        Err(e) => {
            return Err(e);
        },
    };
    let d = match send_down(c, dims, steps, kind) {
        Ok(p) => p,
        Err(e) => {
            return Err(e);
        },
    };
    avoid_repetition(action, pivot(d, dims, steps, kind), dims, steps)
}

/// What a proposed `stop` leads to: with datasets and depth to go, a descent
/// that was not gone before; else the stop itself.
pub open spec fn stopped(
    reason: Seq<char>,
    max_depth: usize,
    dims: Seq<Seq<char>>,
    steps: Seq<InvestigationStep>,
    kind: InvestigateInputKind,
) -> Result<ActionView, Seq<char>> {
    if steps.len() == 0 {
        Err("first llm action cannot be stop"@)
    } else if kind == InvestigateInputKind::CsvDatasets && max_depth > 1 && (match descent(
        dims,
        steps,
    ) {
        Some(d) => !repeated(steps, d.group_by, d.scope),
        None => false,
    }) {
        let d = descent(dims, steps)->0;
        Ok(
            ActionView::DrillDown {
                group_by: d.group_by,
                scope: d.scope,
                reason: "auto-follow drill-down from prior top mover"@,
            },
        )
    } else {
        Ok(ActionView::Stop { reason })
    }
}

spec fn action_result(r: Result<InvestigationExecAction, String>) -> Result<
    ActionView,
    Seq<char>,
> {
    match r {
        Ok(a) => Ok(a@),
        Err(e) => Err(e@),
    }
}

fn stop(
    reason: String,
    max_depth: usize,
    dims: &[String],
    steps: &[InvestigationStep],
    kind: InvestigateInputKind,
) -> (r: Result<InvestigationExecAction, String>)
    ensures
        action_result(r) == stopped(reason@, max_depth, text::views(dims@), steps@, kind),
{
    if steps.len() == 0 {
        return Err("first llm action cannot be stop".to_owned());
    }
    if kind == InvestigateInputKind::CsvDatasets && max_depth > 1 {
        match descend(dims, steps) {
            Some(d) => {
                if !is_repeated_path(steps, d.group_by.as_str(), d.scope.as_slice()) {
                    return Ok(
                        InvestigationExecAction::DrillDown {
                            group_by: d.group_by,
                            scope: d.scope,
                            reason: "auto-follow drill-down from prior top mover".to_owned(),
                        },
                    );
                }
            },
            None => {},
        }
    }
    Ok(InvestigationExecAction::Stop { reason })
}

/// The first dimension by which a proposal wants to group.
pub open spec fn proposed_group_by(params: Option<LlmPlannerParams>) -> Seq<char> {
    match params {
        Some(p) => match p.group_by {
            Some(g) => if g@.len() > 0 {
                g@[0]@
            } else {
                ""@
            },
            None => ""@,
        },
        None => ""@,
    }
}

pub open spec fn proposed_filters(params: Option<LlmPlannerParams>) -> Option<
    Seq<(Seq<char>, Seq<char>)>,
> {
    match params {
        Some(p) => optional_bindings(p.filters),
        None => None,
    }
}

/// The metric that a proposal asks for although none was fixed beforehand.
pub open spec fn foreign_metric(
    params: Option<LlmPlannerParams>,
    fixed: Option<String>,
) -> Option<Seq<char>> {
    match params {
        Some(p) => match p.metric {
            Some(m) => if fixed is Some {
                None
            } else {
                Some(m@)
            },
            None => None,
        },
        None => None,
    }
}

/// The action that a proposal leads to, or why it is refused.
pub open spec fn validated(
    proposed: LlmPlannerAction,
    fixed_metric: Option<String>,
    max_depth: usize,
    dims: Seq<Seq<char>>,
    steps: Seq<InvestigationStep>,
    kind: InvestigateInputKind,
) -> Result<ActionView, Seq<char>> {
    let action = text::lower(text::trim(proposed.action@));
    let reason = reported_reason(
        action,
        match proposed.reason {
            Some(r) => r@,
            None => "llm planner decision"@,
        },
    );
    match foreign_metric(proposed.params, fixed_metric) {
        Some(m) => Err(
            "llm requested metric '"@ + m + "' but metric override is not supported in v1"@,
        ),
        None => match scope_of_filters(proposed_filters(proposed.params), dims) {
            Err(e) => Err(e),
            Ok(scope) => if action == "stop"@ {
                stopped(reason, max_depth, dims, steps, kind)
            } else if action == "analyze_compare"@ || action == "drill_down"@ {
                match planned_path(
                    action,
                    proposed_group_by(proposed.params),
                    scope,
                    dims,
                    steps,
                    kind,
                ) {
                    Err(e) => Err(e),
                    Ok(p) => Ok(
                        if p.drill {
                            ActionView::DrillDown { group_by: p.group_by, scope: p.scope, reason }
                        } else {
                            ActionView::AnalyzeCompare {
                                group_by: p.group_by,
                                scope: p.scope,
                                reason,
                            }
                        },
                    ),
                }
            } else {
                Err("invalid llm action '"@ + proposed.action@ + "'"@)
            },
        },
    }
}

/// Checks a proposed action against the dimensions, the steps so far and the
/// kind of input, and completes what it leaves open.
pub fn validate_llm_planner_action(
    proposed: &LlmPlannerAction,
    args: &InvestigateWorkflowArgs,
    available_dimensions: &[String],
    steps: &[InvestigationStep],
    input_kind: InvestigateInputKind,
) -> (r: Result<InvestigationExecAction, String>)
    ensures
        match r {
            Ok(a) => validated(
                *proposed,
                args.metric,
                args.max_depth,
                text::views(available_dimensions@),
                steps@,
                input_kind,
            ) == Ok::<ActionView, Seq<char>>(a@),
            Err(e) => validated(
                *proposed,
                args.metric,
                args.max_depth,
                text::views(available_dimensions@),
                steps@,
                input_kind,
            ) == Err::<ActionView, Seq<char>>(e@),
        },
{
    let action = to_lower(trimmed(proposed.action.as_str()).as_str());
    let reason = match &proposed.reason {
        Some(raw) => normalize_planner_reason(action.as_str(), raw.as_str()),
        None => normalize_planner_reason(action.as_str(), "llm planner decision"),
    };
    let mut group_by_raw: &str = "";
    let mut filters: &Option<Vec<(String, String)>> = &None;
    match &proposed.params {
        Some(p) => {
            match &p.metric {
                Some(m) => {
                    if args.metric.is_none() {
                        return Err(
                            cat3(
                                "llm requested metric '",
                                m.as_str(),
                                "' but metric override is not supported in v1",
                            ),
                        );
                    }
                },
                None => {},
            }
            match &p.group_by {
                Some(g) => {
                    if g.len() > 0 {
                        group_by_raw = g[0].as_str();
                    }
                },
                None => {},
            }
            filters = &p.filters;
        },
        None => {},
    }
    let scope = match ordered_scope_from_filters(filters, available_dimensions) {
        Ok(s) => s,
        Err(e) => {
            return Err(e);
        },
    };
    if same(action.as_str(), "stop") {
        return stop(reason, args.max_depth, available_dimensions, steps, input_kind);
    }
    if same(action.as_str(), "analyze_compare") || same(action.as_str(), "drill_down") {
        return match plan_path(
            action.as_str(),
            group_by_raw,
            scope,
            available_dimensions,
            steps,
            input_kind,
        ) {
            Ok(p) => {
                if p.drill {
                    Ok(
                        InvestigationExecAction::DrillDown {
                            group_by: p.group_by,
                            scope: p.scope,
                            reason,
                        },
                    )
                } else {
                    Ok(
                        InvestigationExecAction::AnalyzeCompare {
                            group_by: p.group_by,
                            scope: p.scope,
                            reason,
                        },
                    )
                }
            },
            Err(e) => Err(e),
        };
    }
    Err(cat3("invalid llm action '", proposed.action.as_str(), "'"))
}

// ---------------------------------------------------------------------------
// What holds of every accepted action
// ---------------------------------------------------------------------------

/// The dimension of an action that compares.
pub open spec fn action_group_by(a: ActionView) -> Seq<char> {
    match a {
        ActionView::AnalyzeCompare { group_by, .. } => group_by,
        ActionView::DrillDown { group_by, .. } => group_by,
        ActionView::Stop { .. } => Seq::empty(),
    }
}

/// The scope of an action that compares.
pub open spec fn action_scope(a: ActionView) -> Seq<(Seq<char>, Seq<char>)> {
    match a {
        ActionView::AnalyzeCompare { scope, .. } => scope,
        ActionView::DrillDown { scope, .. } => scope,
        ActionView::Stop { .. } => Seq::empty(),
    }
}

/// No accepted action repeats a comparison: none of the steps so far has the
/// same dimension and the same scope.
pub proof fn law_accepted_actions_are_new(
    proposed: LlmPlannerAction,
    fixed_metric: Option<String>,
    max_depth: usize,
    dims: Seq<Seq<char>>,
    steps: Seq<InvestigationStep>,
    kind: InvestigateInputKind,
)
    ensures
        match validated(proposed, fixed_metric, max_depth, dims, steps, kind) {
            Ok(a) => a is Stop || !repeated(steps, action_group_by(a), action_scope(a)),
            Err(_) => true,
        },
{
}

/// The first accepted action compares the whole data; it neither goes down nor stops.
pub proof fn law_first_action_compares_everything(
    proposed: LlmPlannerAction,
    fixed_metric: Option<String>,
    max_depth: usize,
    dims: Seq<Seq<char>>,
    steps: Seq<InvestigationStep>,
    kind: InvestigateInputKind,
)
    requires
        steps.len() == 0,
    ensures
        match validated(proposed, fixed_metric, max_depth, dims, steps, kind) {
            Ok(a) => a is AnalyzeCompare && action_scope(a).len() == 0,
            Err(_) => true,
        },
{
}

/// An accepted descent has datasets to read, an earlier step to go down from
/// and a scope to go down into.
pub proof fn law_descents_are_scoped(
    proposed: LlmPlannerAction,
    fixed_metric: Option<String>,
    max_depth: usize,
    dims: Seq<Seq<char>>,
    steps: Seq<InvestigationStep>,
    kind: InvestigateInputKind,
)
    ensures
        match validated(proposed, fixed_metric, max_depth, dims, steps, kind) {
            Ok(a) => a is DrillDown ==> steps.len() > 0 && kind
                == InvestigateInputKind::CsvDatasets && action_scope(a).len() > 0,
            Err(_) => true,
        },
{
    assert forall|s: Seq<(Seq<char>, Seq<char>)>, t: Seq<(Seq<char>, Seq<char>)>|
        s.len() > 0 implies (#[trigger] scope::merged(s, t)).len() > 0 by {
        scope::lemma_merge_extends(s, t);
    }
}

proof fn lemma_fitting_is_available(
    action: Seq<char>,
    steps: Seq<InvestigationStep>,
    dims: Seq<Seq<char>>,
    scope: Seq<(Seq<char>, Seq<char>)>,
)
    ensures
        match fitting_dimension(action, steps, dims, scope) {
            Some(d) => dims.contains(d),
            None => dims.len() == 0,
        },
{
    list::lemma_first_from(dims, unused(steps, scope), 0);
}

/// Every accepted comparison is by one of the available dimensions.
pub proof fn law_accepted_dimensions_are_available(
    proposed: LlmPlannerAction,
    fixed_metric: Option<String>,
    max_depth: usize,
    dims: Seq<Seq<char>>,
    steps: Seq<InvestigationStep>,
    kind: InvestigateInputKind,
)
    ensures
        match validated(proposed, fixed_metric, max_depth, dims, steps, kind) {
            Ok(a) => a is Stop || dims.contains(action_group_by(a)),
            Err(_) => true,
        },
{
    assert forall|action: Seq<char>, s: Seq<(Seq<char>, Seq<char>)>|
        match #[trigger] fitting_dimension(action, steps, dims, s) {
            Some(d) => dims.contains(d),
            None => true,
        } by {
        lemma_fitting_is_available(action, steps, dims, s);
    }
    let raw = proposed_group_by(proposed.params);
    list::lemma_first_from(dims, named(raw), 0);
}

/// An investigation only narrows: where the last step's scope does not
/// contradict itself, every accepted action that has a scope keeps all of it.
pub proof fn law_accepted_scopes_narrow(
    proposed: LlmPlannerAction,
    fixed_metric: Option<String>,
    max_depth: usize,
    dims: Seq<Seq<char>>,
    steps: Seq<InvestigationStep>,
    kind: InvestigateInputKind,
)
    requires
        steps.len() > 0,
        scope::superset(
            scope::bindings(steps.last().scope@),
            scope::bindings(steps.last().scope@),
        ),
    ensures
        match validated(proposed, fixed_metric, max_depth, dims, steps, kind) {
            Ok(a) => action_scope(a).len() > 0 ==> scope::superset(
                action_scope(a),
                scope::bindings(steps.last().scope@),
            ),
            Err(_) => true,
        },
{
    let prior = scope::bindings(steps.last().scope@);
    match next_scope(steps) {
        Some(s) => {
            assert(s.take(prior.len() as int) =~= prior);
            scope::lemma_opens_superset(s, prior);
        },
        None => {},
    }
    assert forall|t: Seq<(Seq<char>, Seq<char>)>| scope::superset(
        #[trigger] scope::merged(prior, t),
        prior,
    ) by {
        scope::law_merge_keeps_required(prior, t);
    }
}

/// A dimension is free within a scope, after the steps so far.
pub open spec fn some_dimension_free(
    dims: Seq<Seq<char>>,
    steps: Seq<InvestigationStep>,
    scope: Seq<(Seq<char>, Seq<char>)>,
) -> bool {
    exists|i: int| 0 <= i < dims.len() && unused(steps, scope)(#[trigger] dims[i])
}

/// While a dimension is free within the scope of an accepted later action, the
/// action compares by a dimension that its scope does not fix.
pub proof fn law_accepted_dimensions_are_free(
    proposed: LlmPlannerAction,
    fixed_metric: Option<String>,
    max_depth: usize,
    dims: Seq<Seq<char>>,
    steps: Seq<InvestigationStep>,
    kind: InvestigateInputKind,
)
    requires
        steps.len() > 0,
    ensures
        match validated(proposed, fixed_metric, max_depth, dims, steps, kind) {
            Ok(a) => !(a is Stop) && some_dimension_free(dims, steps, action_scope(a))
                ==> !scope::has_dimension(action_scope(a), action_group_by(a)),
            Err(_) => true,
        },
{
    assert forall|action: Seq<char>, s: Seq<(Seq<char>, Seq<char>)>|
        some_dimension_free(dims, steps, s) && (action == "drill_down"@ || s.len()
            > 0) implies (match #[trigger] fitting_dimension(action, steps, dims, s) {
        Some(d) => !scope::has_dimension(s, d),
        None => true,
    }) by {
        list::lemma_first_from(dims, unused(steps, s), 0);
    }
}

/// The next scope goes into the first segment of the last step that has a name:
/// it is the step's own scope, narrowed to that segment along its dimension.
pub proof fn law_the_next_scope_enters_the_first_named_segment(
    steps: Seq<InvestigationStep>,
    k: int,
)
    requires
        steps.len() > 0,
        0 <= k < steps.last().movers@.len(),
        !text::is_blank(steps.last().movers@[k].segment@),
        steps.last().movers@[k].segment@ != "(blank)"@,
        steps.last().movers@[k].segment@ != "(unknown)"@,
        forall|j: int|
            0 <= j < k ==> ({
                let s = (#[trigger] steps.last().movers@[j]).segment@;
                text::is_blank(s) || s == "(blank)"@ || s == "(unknown)"@
            }),
    ensures
        next_scope(steps) == Some(
            scope::bindings(steps.last().scope@).push(
                (steps.last().dimension@, steps.last().movers@[k].segment@),
            ),
        ),
{
    let movers = steps.last().movers@;
    list::lemma_first_from(movers, drillable_mover(), 0);
    assert(drillable_mover()(movers[k]));
    match list::first_from(movers, drillable_mover(), 0) {
        Some(i) => {
            if i < k {
                assert(drillable_mover()(movers[i]));
            }
            if k < i {
                assert(!drillable_mover()(movers[k]));
            }
        },
        None => {},
    }
}

/// Going down, the dimension is the first that neither the scope binds nor the
/// last step was divided by.
pub proof fn law_descents_take_the_first_free_dimension(
    steps: Seq<InvestigationStep>,
    dims: Seq<Seq<char>>,
    scope: Seq<(Seq<char>, Seq<char>)>,
    k: int,
)
    requires
        steps.len() > 0,
        0 <= k < dims.len(),
        !scope::has_dimension(scope, dims[k]),
        !text::same_ignoring_case(steps.last().dimension@, dims[k]),
        forall|j: int|
            0 <= j < k ==> scope::has_dimension(scope, #[trigger] dims[j])
                || text::same_ignoring_case(steps.last().dimension@, dims[j]),
    ensures
        fitting_dimension("drill_down"@, steps, dims, scope) == Some(dims[k]),
{
    list::lemma_first_from(dims, unused(steps, scope), 0);
    assert(unused(steps, scope)(dims[k]));
    match list::first_from(dims, unused(steps, scope), 0) {
        Some(i) => {
            if i < k {
                assert(unused(steps, scope)(dims[i]));
            }
            if k < i {
                assert(!unused(steps, scope)(dims[k]));
            }
        },
        None => {},
    }
}

/// A descent that names an available dimension and a scope within that of the
/// last step, does not divide by what the scope binds, and was not made before
/// is taken as it is.
pub proof fn law_sound_descents_are_taken_as_they_are(
    group_by_raw: Seq<char>,
    scope: Seq<(Seq<char>, Seq<char>)>,
    dims: Seq<Seq<char>>,
    steps: Seq<InvestigationStep>,
    k: int,
)
    requires
        steps.len() > 0,
        scope.len() > 0,
        0 <= k < dims.len(),
        !text::is_blank(group_by_raw),
        text::same_ignoring_case(dims[k], group_by_raw),
        forall|j: int| 0 <= j < k ==> !text::same_ignoring_case(#[trigger] dims[j], group_by_raw),
        scope::superset(scope, scope::bindings(steps.last().scope@)),
        !scope::has_dimension(scope, dims[k]),
        !repeated(steps, dims[k], scope),
    ensures
        planned_path(
            "drill_down"@,
            group_by_raw,
            scope,
            dims,
            steps,
            InvestigateInputKind::CsvDatasets,
        ) == Ok::<PathView, Seq<char>>(PathView { drill: true, group_by: dims[k], scope }),
{
    let prior = scope::bindings(steps.last().scope@);
    list::lemma_first_from(dims, named(group_by_raw), 0);
    assert(named(group_by_raw)(dims[k]));
    match list::first_from(dims, named(group_by_raw), 0) {
        Some(i) => {
            if i < k {
                assert(named(group_by_raw)(dims[i]));
            }
            if k < i {
                assert(!named(group_by_raw)(dims[k]));
            }
        },
        None => {},
    }
    list::lemma_first_from(prior, scope::contradicted(scope), 0);
    if let Some(i) = list::first_from(prior, scope::contradicted(scope), 0) {
        assert(scope::contradicted(scope)(prior[i]));
        assert(scope::value_of(scope, prior[i].0) == Some(prior[i].1));
    }
    assert(scope::conflict(prior, scope) is None);
}

/// A stop is granted as it is asked for once a step was made, unless there is a
/// deeper segment to go into that was not looked at; then the search goes there.
pub proof fn law_stops_wait_for_the_next_segment(
    reason: Seq<char>,
    max_depth: usize,
    dims: Seq<Seq<char>>,
    steps: Seq<InvestigationStep>,
    kind: InvestigateInputKind,
)
    ensures
        steps.len() == 0 <==> stopped(reason, max_depth, dims, steps, kind) is Err,
        steps.len() > 0 && (max_depth <= 1 || kind != InvestigateInputKind::CsvDatasets
            || next_scope(steps) is None || dims.len() == 0) ==> stopped(
            reason,
            max_depth,
            dims,
            steps,
            kind,
        ) == Ok::<ActionView, Seq<char>>(ActionView::Stop { reason }),
        match stopped(reason, max_depth, dims, steps, kind) {
            Ok(ActionView::DrillDown { group_by, scope, .. }) => next_scope(steps) == Some(scope)
                && dims.contains(group_by) && !repeated(steps, group_by, scope) && max_depth > 1,
            Ok(ActionView::Stop { reason: r }) => r == reason,
            Ok(ActionView::AnalyzeCompare { .. }) => false,
            Err(_) => true,
        },
{
    if let Some(s) = next_scope(steps) {
        list::lemma_first_from(dims, unused(steps, s), 0);
        if let Some(i) = list::first_from(dims, unused(steps, s), 0) {
            assert(dims.contains(dims[i]));
        }
        if dims.len() > 0 {
            assert(dims.contains(dims[0]));
        }
    }
}

/// The scope that filters give binds the filtered dimensions in the order in
/// which they are available, each to its filter's value without the space around
/// it; a filter on a dimension that is not available, or a blank one, is refused.
pub proof fn law_filters_bind_their_dimensions(
    filters: Seq<(Seq<char>, Seq<char>)>,
    dims: Seq<Seq<char>>,
)
    ensures
        match filtered_dims(filters, dims) {
            Ok(s) => {
                &&& forall|k: int|
                    0 <= k < s.len() ==> ({
                        let b = #[trigger] s[k];
                        let v = scope::value_of(filters, b.0);
                        dims.contains(b.0) && v is Some && !text::is_blank(v->0) && b.1
                            == text::trim(v->0)
                    })
                &&& forall|i: int|
                    0 <= i < dims.len() && scope::value_of(filters, #[trigger] dims[i]) is Some
                        ==> s.contains(
                        (dims[i], text::trim(scope::value_of(filters, dims[i])->0)),
                    )
            },
            Err(_) => exists|i: int|
                0 <= i < dims.len() && scope::value_of(filters, #[trigger] dims[i]) is Some
                    && text::is_blank(scope::value_of(filters, dims[i])->0),
        },
    decreases dims.len(),
{
    if dims.len() > 0 {
        let rest = dims.drop_last();
        law_filters_bind_their_dimensions(filters, rest);
        assert forall|d: Seq<char>| #[trigger] rest.contains(d) implies dims.contains(d) by {
            let i = choose|i: int| 0 <= i < rest.len() && rest[i] == d;
            assert(dims[i] == d);
        }
        match filtered_dims(filters, rest) {
            Err(_) => {
                let i = choose|i: int|
                    0 <= i < rest.len() && scope::value_of(filters, #[trigger] rest[i]) is Some
                        && text::is_blank(scope::value_of(filters, rest[i])->0);
                assert(dims[i] == rest[i]);
            },
            Ok(front) => {
                let last = dims[dims.len() - 1];
                assert(dims.contains(last));
                match filtered_dims(filters, dims) {
                    Err(_) => {
                        assert(scope::value_of(filters, last) is Some);
                    },
                    Ok(s) => {
                        assert forall|k: int| 0 <= k < s.len() implies ({
                            let b = #[trigger] s[k];
                            let v = scope::value_of(filters, b.0);
                            dims.contains(b.0) && v is Some && !text::is_blank(v->0) && b.1
                                == text::trim(v->0)
                        }) by {
                            if k < front.len() {
                                assert(s[k] == front[k]);
                                assert(rest.contains(front[k].0));
                            }
                        }
                        assert forall|i: int|
                            0 <= i < dims.len() && scope::value_of(
                                filters,
                                #[trigger] dims[i],
                            ) is Some implies s.contains(
                            (dims[i], text::trim(scope::value_of(filters, dims[i])->0)),
                        ) by {
                            let x = (dims[i], text::trim(scope::value_of(filters, dims[i])->0));
                            if i < rest.len() {
                                assert(rest[i] == dims[i]);
                                assert(front.contains(x));
                                let k = choose|k: int| 0 <= k < front.len() && front[k] == x;
                                assert(s[k] == x);
                            } else {
                                assert(s[s.len() - 1] == x);
                            }
                        }
                    },
                }
            },
        }
    }
}

/// A reason is told in its own words on one line, where it has some and they say
/// something; else the action's stock reason is told.
pub proof fn law_telling_reasons_are_told(action: Seq<char>, raw: Seq<char>)
    ensures
        reported_reason(action, raw) == stock_reason(action) || reported_reason(action, raw)
            == one_line(text::trim(raw)),
        text::is_blank(raw) ==> reported_reason(action, raw) == stock_reason(action),
        !text::is_blank(raw) && byte_len(one_line(text::trim(raw))) >= 8 && !low_signal(
            text::lower(one_line(text::trim(raw))),
        ) ==> reported_reason(action, raw) == one_line(text::trim(raw)),
        low_signal(text::lower(one_line(text::trim(raw)))) ==> reported_reason(action, raw)
            == stock_reason(action),
{
}

} // verus!
