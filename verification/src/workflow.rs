//! The search of an investigation without a planner: level by level, into the
//! strongest segments, along the dimension that tells the most.

use vstd::prelude::*;

use crate::answers;
use crate::args::{InvestigateInputKind, InvestigateWorkflowArgs, InvestigationMode};
use crate::digits;
use crate::digits::{count_text, decimal_text};
use crate::drill;
use crate::drill::{
    drill_candidate_matches_base_thresholds, remaining_drill_dimensions, select_drill_candidates,
    used_dimensions_for_step,
};
use crate::investigation::{
    copy_mover, InvestigationMover, InvestigationStep, InvestigationTraceStep,
};
use crate::list;
use crate::num::Num;
use crate::order;
use crate::order::text_before;
use crate::planner;
use crate::scan;
use crate::scan::mentions;
use crate::scope;
use crate::scope::copy_scope;
use crate::text;
use crate::text::{blank, cat2, cat3, cat5, copy_all};

verus! {

// ---------------------------------------------------------------------------
// Options
// ---------------------------------------------------------------------------

/// A power, but no more than the largest machine number.
pub open spec fn capped_power(b: int, e: nat) -> int {
    let p = vstd::arithmetic::power::pow(b, e);
    if p > usize::MAX {
        usize::MAX as int
    } else {
        p
    }
}

/// A power, but no more than the largest machine number.
pub fn power_up_to_limit(b: usize, e: u32) -> (r: usize)
    requires
        b >= 1,
    ensures
        r == capped_power(b as int, e as nat),
{
    if b == 1 {
        proof {
            lemma_power_of_one(e as nat);
        }
        return 1;
    }
    let mut acc: usize = 1;
    let mut k: u32 = 0;
    proof {
        vstd::arithmetic::power::lemma_pow0(b as int);
    }
    while k < e
        invariant
            b >= 2,
            k <= e,
            1 <= acc,
            acc == vstd::arithmetic::power::pow(b as int, k as nat),
        decreases e - k,
    {
        proof {
            reveal(vstd::arithmetic::power::pow);
            assert(vstd::arithmetic::power::pow(b as int, (k + 1) as nat) == b
                * vstd::arithmetic::power::pow(b as int, k as nat));
            assert(b * acc == acc * b) by (nonlinear_arith);
        }
        match acc.checked_mul(b) {
            Some(next) => {
                assert(next >= acc) by (nonlinear_arith)
                    requires
                        next == acc * b,
                        b >= 2,
                        acc >= 1,
                ;
                acc = next;
            },
            None => {
                proof {
                    lemma_power_grows(b as int, (k + 1) as nat, e as nat);
                }
                return usize::MAX;
            },
        }
        k += 1;
    }
    acc
}

proof fn lemma_power_of_one(e: nat)
    ensures
        vstd::arithmetic::power::pow(1, e) == 1,
    decreases e,
{
    reveal(vstd::arithmetic::power::pow);
    if e > 0 {
        lemma_power_of_one((e - 1) as nat);
    }
}

proof fn lemma_power_grows(b: int, i: nat, j: nat)
    requires
        b >= 1,
        i <= j,
    ensures
        vstd::arithmetic::power::pow(b, i) <= vstd::arithmetic::power::pow(b, j),
        vstd::arithmetic::power::pow(b, i) >= 1,
    decreases j,
{
    reveal(vstd::arithmetic::power::pow);
    if j == 0 {
    } else if i == j {
        lemma_power_grows(b, (i - 1) as nat, (j - 1) as nat);
        let p = vstd::arithmetic::power::pow(b, (i - 1) as nat);
        assert(b * p >= 1) by (nonlinear_arith)
            requires
                b >= 1,
                p >= 1,
        ;
    } else {
        lemma_power_grows(b, i, (j - 1) as nat);
        let p = vstd::arithmetic::power::pow(b, (j - 1) as nat);
        assert(b * p >= p) by (nonlinear_arith)
            requires
                b >= 1,
                p >= 1,
        ;
    }
}

/// What is wrong with the options of a search, whatever plans it.
pub open spec fn option_error(args: InvestigateWorkflowArgs) -> Option<Seq<char>> {
    if args.max_depth < 1 {
        Some("--max-depth must be >= 1"@)
    } else if args.max_branches < 1 {
        Some("--max-branches must be >= 1"@)
    } else if args.top_movers < 1 {
        Some("--top-movers must be >= 1"@)
    } else if args.min_delta_abs.lt(Num::zero_spec()) {
        Some("--min-delta-abs must be >= 0"@)
    } else if args.min_score_improvement.lt(Num::zero_spec()) {
        Some("--min-score-improvement must be >= 0"@)
    } else {
        None
    }
}

/// Checks the options of a search, whatever plans it.
pub fn check_search_options(args: &InvestigateWorkflowArgs) -> (r: Result<(), String>)
    ensures
        match r {
            Ok(_) => option_error(*args) is None,
            Err(e) => option_error(*args) == Some(e@),
        },
{
    if args.max_depth < 1 {
        return Err("--max-depth must be >= 1".to_owned());
    }
    if args.max_branches < 1 {
        return Err("--max-branches must be >= 1".to_owned());
    }
    if args.top_movers < 1 {
        return Err("--top-movers must be >= 1".to_owned());
    }
    if args.min_delta_abs.less(Num::zero()) {
        return Err("--min-delta-abs must be >= 0".to_owned());
    }
    if args.min_score_improvement.less(Num::zero()) {
        return Err("--min-score-improvement must be >= 0".to_owned());
    }
    Ok(())
}

/// The question is there.
pub fn check_question(args: &InvestigateWorkflowArgs) -> (r: Result<(), String>)
    ensures
        match r {
            Ok(_) => !text::is_blank(args.question@),
            Err(e) => text::is_blank(args.question@) && e@
                == "investigate requires --question (or set question in --config/--profile)"@,
        },
{
    if blank(args.question.as_str()) {
        Err("investigate requires --question (or set question in --config/--profile)".to_owned())
    } else {
        Ok(())
    }
}

/// The number of branches that a search can have at its lowest level.
pub open spec fn planned_branches(args: InvestigateWorkflowArgs) -> int {
    capped_power(args.max_branches as int, ((args.max_depth - 1) % 0x1_0000_0000) as nat)
}

/// What is wrong with the options of a search without a planner.
pub open spec fn search_error(args: InvestigateWorkflowArgs) -> Option<Seq<char>> {
    match option_error(args) {
        Some(e) => Some(e),
        None => if planned_branches(args) > 256 {
            Some(
                "investigation search is too large (max_branches^depth="@ + digits::decimal(
                    planned_branches(args) as nat,
                ) + "): reduce --max-branches or --max-depth"@,
            )
        } else {
            None
        },
    }
}

/// Checks the options of a search without a planner.
pub fn check_search(args: &InvestigateWorkflowArgs) -> (r: Result<(), String>)
    ensures
        match r {
            Ok(_) => search_error(*args) is None,
            Err(e) => search_error(*args) == Some(e@),
        },
{
    match check_search_options(args) {
        Ok(_) => {},
        Err(e) => {
            return Err(e);
        },
    }
    let e: u64 = (args.max_depth - 1) as u64 % 0x1_0000_0000;
    let planned: usize = power_up_to_limit(args.max_branches, e as u32);
    if planned > 256 {
        return Err(
            cat3(
                "investigation search is too large (max_branches^depth=",
                count_text(planned).as_str(),
                "): reduce --max-branches or --max-depth",
            ),
        );
    }
    Ok(())
}

// ---------------------------------------------------------------------------
// Trace
// ---------------------------------------------------------------------------

/// An entry of the decision log in views.
pub struct TraceView {
    pub depth: int,
    pub action: Seq<char>,
    pub decision: Seq<char>,
    pub scope: Seq<(Seq<char>, Seq<char>)>,
    pub stopping_reason: Option<Seq<char>>,
}

impl View for InvestigationTraceStep {
    type V = TraceView;

    open spec fn view(&self) -> TraceView {
        TraceView {
            depth: self.depth as int,
            action: self.action@,
            decision: self.decision@,
            scope: scope::bindings(self.scope@),
            stopping_reason: planner::optional_text(self.stopping_reason),
        }
    }
}

pub open spec fn trace_views(s: Seq<InvestigationTraceStep>) -> Seq<TraceView> {
    Seq::new(s.len(), |i: int| s[i]@)
}

/// A log whose last entry says why the search stopped.
pub open spec fn closed_trace(trace: Seq<TraceView>, reason: Seq<char>) -> Seq<TraceView> {
    if trace.len() == 0 {
        trace
    } else {
        trace.update(
            trace.len() - 1,
            TraceView { stopping_reason: Some(reason), ..trace.last() },
        )
    }
}

/// Writes into the last entry of a log why the search stopped.
pub fn close_trace(trace: &mut Vec<InvestigationTraceStep>, reason: &str)
    ensures
        trace_views(final(trace)@) == closed_trace(trace_views(old(trace)@), reason@),
{
    let ghost before = trace_views(trace@);
    let n: usize = trace.len();
    if n > 0 {
        trace[n - 1].stopping_reason = Some(reason.to_owned());
    }
    assert(trace_views(trace@) =~= closed_trace(before, reason@));
}

// ---------------------------------------------------------------------------
// Planning a level
// ---------------------------------------------------------------------------

/// A segment to go into, and the dimensions along which it can be looked at.
#[derive(Clone, Debug)]
pub struct Probe {
    pub parent: usize,
    pub mover: InvestigationMover,
    pub scope: Vec<(String, String)>,
    pub dimensions: Vec<String>,
}

/// A probe in views.
pub struct ProbeView {
    pub parent: int,
    pub mover: InvestigationMover,
    pub scope: Seq<(Seq<char>, Seq<char>)>,
    pub dimensions: Seq<Seq<char>>,
}

impl View for Probe {
    type V = ProbeView;

    open spec fn view(&self) -> ProbeView {
        ProbeView {
            parent: self.parent as int,
            mover: self.mover,
            scope: scope::bindings(self.scope@),
            dimensions: text::views(self.dimensions@),
        }
    }
}

pub open spec fn probe_views(s: Seq<Probe>) -> Seq<ProbeView> {
    Seq::new(s.len(), |i: int| s[i]@)
}

/// What was met on a level.
#[derive(Clone, Copy, Debug, PartialEq, Eq, Structural)]
pub struct LevelNotes {
    pub next_dimension: bool,
    pub eligible: bool,
    pub composite: bool,
    pub low_delta: bool,
    pub low_improvement: bool,
}

pub open spec fn no_notes() -> LevelNotes {
    LevelNotes {
        next_dimension: false,
        eligible: false,
        composite: false,
        low_delta: false,
        low_improvement: false,
    }
}

/// A segment of several dimensions at once.
pub open spec fn is_composite(m: InvestigationMover) -> bool {
    scan::contains(m.segment@, " | "@)
}

/// The candidates of a step.
pub open spec fn step_candidates(
    step: InvestigationStep,
    raised: Seq<Num>,
    args: InvestigateWorkflowArgs,
    mode: InvestigationMode,
) -> Seq<InvestigationMover> {
    drill::ranked_movers(
        drill::eligible(
            step.movers@,
            raised,
            mode,
            args.min_contribution,
            args.min_delta_abs,
            args.min_slice_rows,
            step.movers@.len() as int,
        ),
        mode,
        args.max_branches,
    )
}

/// A segment of the step passes the thresholds that do not look at the change
/// of the metric.
pub open spec fn some_basic_candidate(
    step: InvestigationStep,
    args: InvestigateWorkflowArgs,
    mode: InvestigationMode,
) -> bool {
    exists|i: int|
        0 <= i < step.movers@.len() && #[trigger] drill::meets_thresholds(
            step.movers@[i],
            mode,
            args.min_contribution,
            args.min_slice_rows,
        )
}

fn has_basic_candidate(
    step: &InvestigationStep,
    args: &InvestigateWorkflowArgs,
    mode: InvestigationMode,
) -> (r: bool)
    ensures
        r == some_basic_candidate(*step, *args, mode),
{
    let mut i: usize = 0;
    while i < step.movers.len()
        invariant
            i <= step.movers.len(),
            forall|k: int|
                0 <= k < i ==> !#[trigger] drill::meets_thresholds(
                    step.movers@[k],
                    mode,
                    args.min_contribution,
                    args.min_slice_rows,
                ),
        decreases step.movers.len() - i,
    {
        if drill_candidate_matches_base_thresholds(
            &step.movers[i],
            mode,
            args.min_contribution,
            args.min_slice_rows,
        ) {
            return true;
        }
        i += 1;
    }
    false
}

/// The threshold on the change of the metric counts.
pub open spec fn asks_for_delta(args: InvestigateWorkflowArgs, mode: InvestigationMode) -> bool {
    mode != InvestigationMode::ConcentrationDrivers && Num::zero_spec().lt(args.min_delta_abs)
}

fn wants_delta(args: &InvestigateWorkflowArgs, mode: InvestigationMode) -> (r: bool)
    ensures
        r == asks_for_delta(*args, mode),
{
    mode != InvestigationMode::ConcentrationDrivers && Num::zero().less(args.min_delta_abs)
}

/// The probes of the first `n` candidates of a step.
pub open spec fn candidate_probes(
    parent: int,
    step: InvestigationStep,
    candidates: Seq<InvestigationMover>,
    dims: Seq<Seq<char>>,
    n: int,
) -> Seq<ProbeView>
    decreases n,
{
    if n <= 0 {
        Seq::empty()
    } else {
        let front = candidate_probes(parent, step, candidates, dims, n - 1);
        let m = candidates[n - 1];
        if is_composite(m) {
            front
        } else {
            front.push(
                ProbeView {
                    parent,
                    mover: m,
                    scope: scope::bindings(step.scope@).push((step.dimension@, m.segment@)),
                    dimensions: dims,
                },
            )
        }
    }
}

/// One of the first `n` candidates is of several dimensions.
pub open spec fn some_composite(candidates: Seq<InvestigationMover>, n: int) -> bool {
    exists|i: int| 0 <= i < n && is_composite(#[trigger] candidates[i])
}

/// The dimensions along which a step can be gone into.
pub open spec fn open_dimensions(step: InvestigationStep, drill: Seq<Seq<char>>) -> Seq<Seq<char>> {
    list::keep(drill, drill::not_used(drill::used_dimensions(step)))
}

/// What one step adds to the probes of a level and to its notes.
pub open spec fn with_parent(
    probes: Seq<ProbeView>,
    notes: LevelNotes,
    parent: int,
    step: InvestigationStep,
    raised: Seq<Num>,
    args: InvestigateWorkflowArgs,
    mode: InvestigationMode,
    drill: Seq<Seq<char>>,
) -> (Seq<ProbeView>, LevelNotes) {
    let dims = open_dimensions(step, drill);
    let candidates = step_candidates(step, raised, args, mode);
    if dims.len() == 0 {
        (probes, notes)
    } else if candidates.len() == 0 {
        (
            probes,
            LevelNotes {
                next_dimension: true,
                low_delta: notes.low_delta || (asks_for_delta(args, mode) && some_basic_candidate(
                    step,
                    args,
                    mode,
                )),
                ..notes
            },
        )
    } else {
        (
            probes + candidate_probes(parent, step, candidates, dims, candidates.len() as int),
            LevelNotes {
                next_dimension: true,
                eligible: true,
                composite: notes.composite || some_composite(candidates, candidates.len() as int),
                ..notes
            },
        )
    }
}

/// The probes and notes of the first `n` steps of a level.
pub open spec fn level_plan(
    steps: Seq<InvestigationStep>,
    frontier: Seq<usize>,
    raised: Seq<Vec<Num>>,
    args: InvestigateWorkflowArgs,
    mode: InvestigationMode,
    drill: Seq<Seq<char>>,
    n: int,
) -> (Seq<ProbeView>, LevelNotes)
    decreases n,
{
    if n <= 0 {
        (Seq::empty(), no_notes())
    } else {
        let front = level_plan(steps, frontier, raised, args, mode, drill, n - 1);
        with_parent(
            front.0,
            front.1,
            frontier[n - 1] as int,
            steps[frontier[n - 1] as int],
            raised[n - 1]@,
            args,
            mode,
            drill,
        )
    }
}

/// The changes that come with a level fit its steps: one for each mover.
pub open spec fn fits_frontier(
    steps: Seq<InvestigationStep>,
    frontier: Seq<usize>,
    raised: Seq<Vec<Num>>,
) -> bool {
    &&& raised.len() == frontier.len()
    &&& forall|i: int|
        0 <= i < frontier.len() ==> (#[trigger] frontier[i]) < steps.len() && raised[i]@.len()
            == steps[frontier[i] as int].movers@.len()
}

#[verifier::loop_isolation(false)]
fn add_probes(
    probes: &mut Vec<Probe>,
    parent: usize,
    step: &InvestigationStep,
    candidates: &Vec<InvestigationMover>,
    dims: &Vec<String>,
) -> (r: bool)
    ensures
        probe_views(final(probes)@) == probe_views(old(probes)@) + candidate_probes(
            parent as int,
            *step,
            candidates@,
            text::views(dims@),
            candidates@.len() as int,
        ),
        r == some_composite(candidates@, candidates@.len() as int),
{
    let ghost before = probe_views(probes@);
    let ghost names = text::views(dims@);
    let mut composite: bool = false;
    let mut i: usize = 0;
    assert(before + candidate_probes(parent as int, *step, candidates@, names, 0) =~= before);
    while i < candidates.len()
        invariant
            i <= candidates.len(),
            composite == some_composite(candidates@, i as int),
            probe_views(probes@) == before + candidate_probes(
                parent as int,
                *step,
                candidates@,
                names,
                i as int,
            ),
        decreases candidates.len() - i,
    {
        let ghost so_far = probe_views(probes@);
        let m = &candidates[i];
        if mentions(m.segment.as_str(), " | ") {
            composite = true;
            assert(is_composite(candidates@[i as int]));
        } else {
            let mut scope = copy_scope(step.scope.as_slice());
            let ghost outer = scope::bindings(scope@);
            scope.push((step.dimension.clone(), m.segment.clone()));
            assert(scope::bindings(scope@) =~= outer.push((step.dimension@, m.segment@)));
            let dimensions = copy_all(dims);
            probes.push(Probe { parent, mover: copy_mover(m), scope, dimensions });
            assert(probe_views(probes@) =~= so_far.push(probes@.last()@));
        }
        i += 1;
        assert(probe_views(probes@) =~= before + candidate_probes(
            parent as int,
            *step,
            candidates@,
            names,
            i as int,
        ));
    }
    composite
}

/// Plans a level: which segments of its steps are gone into, and along which
/// dimensions. `raised` holds, for each step of the level, the absolute
/// changes of its movers, raised by the tolerance.
#[verifier::loop_isolation(false)]
pub fn plan_level(
    steps: &Vec<InvestigationStep>,
    frontier: &Vec<usize>,
    raised: &Vec<Vec<Num>>,
    args: &InvestigateWorkflowArgs,
    mode: InvestigationMode,
    drill_dimensions: &[String],
) -> (r: (Vec<Probe>, LevelNotes))
    requires
        fits_frontier(steps@, frontier@, raised@),
    ensures
        (probe_views(r.0@), r.1) == level_plan(
            steps@,
            frontier@,
            raised@,
            *args,
            mode,
            text::views(drill_dimensions@),
            frontier@.len() as int,
        ),
{
    let ghost drill = text::views(drill_dimensions@);
    let mut probes: Vec<Probe> = Vec::new();
    let mut notes = LevelNotes {
        next_dimension: false,
        eligible: false,
        composite: false,
        low_delta: false,
        low_improvement: false,
    };
    let mut i: usize = 0;
    assert(probe_views(probes@) =~= Seq::empty());
    while i < frontier.len()
        invariant
            i <= frontier.len(),
            (probe_views(probes@), notes) == level_plan(
                steps@,
                frontier@,
                raised@,
                *args,
                mode,
                drill,
                i as int,
            ),
        decreases frontier.len() - i,
    {
        let parent: usize = frontier[i];
        let step = &steps[parent];
        let used = used_dimensions_for_step(step);
        let dims = remaining_drill_dimensions(drill_dimensions, used.as_slice());
        assert(text::views(dims@) == open_dimensions(*step, drill));
        assert(text::views(dims@).len() == dims@.len());
        if dims.len() > 0 {
            let candidates = select_drill_candidates(
                step,
                mode,
                args.min_contribution,
                args.min_delta_abs,
                args.min_slice_rows,
                args.max_branches,
                raised[i].as_slice(),
            );
            notes.next_dimension = true;
            if candidates.len() == 0 {
                if wants_delta(args, mode) && has_basic_candidate(step, args, mode) {
                    notes.low_delta = true;
                }
            } else {
                notes.eligible = true;
                let composite = add_probes(&mut probes, parent, step, &candidates, &dims);
                if composite {
                    notes.composite = true;
                }
            }
        }
        i += 1;
    }
    (probes, notes)
}

proof fn lemma_candidate_probes(
    parent: int,
    step: InvestigationStep,
    candidates: Seq<InvestigationMover>,
    dims: Seq<Seq<char>>,
    n: int,
)
    requires
        0 <= n <= candidates.len(),
    ensures
        candidate_probes(parent, step, candidates, dims, n).len() <= n,
        forall|i: int|
            0 <= i < candidate_probes(parent, step, candidates, dims, n).len() ==> {
                let p = #[trigger] candidate_probes(parent, step, candidates, dims, n)[i];
                &&& p.parent == parent
                &&& p.dimensions == dims
                &&& !is_composite(p.mover)
                &&& p.scope == scope::bindings(step.scope@).push(
                    (step.dimension@, p.mover.segment@),
                )
            },
    decreases n,
{
    if n > 0 {
        lemma_candidate_probes(parent, step, candidates, dims, n - 1);
    }
}

/// A level has at most as many probes as its steps can have branches.
pub proof fn law_branches_bounded(
    steps: Seq<InvestigationStep>,
    frontier: Seq<usize>,
    raised: Seq<Vec<Num>>,
    args: InvestigateWorkflowArgs,
    mode: InvestigationMode,
    drill: Seq<Seq<char>>,
    n: int,
)
    requires
        0 <= n <= frontier.len(),
        args.max_branches >= 1,
    ensures
        level_plan(steps, frontier, raised, args, mode, drill, n).0.len() <= n * args.max_branches,
    decreases n,
{
    if n > 0 {
        law_branches_bounded(steps, frontier, raised, args, mode, drill, n - 1);
        let step = steps[frontier[n - 1] as int];
        let candidates = step_candidates(step, raised[n - 1]@, args, mode);
        let dims = open_dimensions(step, drill);
        lemma_candidate_probes(
            frontier[n - 1] as int,
            step,
            candidates,
            dims,
            candidates.len() as int,
        );
        assert(candidates.len() <= args.max_branches);
        assert((n - 1) * args.max_branches + args.max_branches == n * args.max_branches)
            by (nonlinear_arith);
    }
}

/// Every probe of a level narrows the scope of one of its steps by one more
/// binding, and looks only along dimensions that the step has not used.
pub proof fn law_probes_narrow(
    steps: Seq<InvestigationStep>,
    frontier: Seq<usize>,
    raised: Seq<Vec<Num>>,
    args: InvestigateWorkflowArgs,
    mode: InvestigationMode,
    drill: Seq<Seq<char>>,
    n: int,
    k: int,
)
    requires
        0 <= n <= frontier.len(),
        fits_frontier(steps, frontier, raised),
        0 <= k < level_plan(steps, frontier, raised, args, mode, drill, n).0.len(),
    ensures
        ({
            let p = level_plan(steps, frontier, raised, args, mode, drill, n).0[k];
            let step = steps[p.parent];
            &&& 0 <= p.parent < steps.len()
            &&& p.scope == scope::bindings(step.scope@).push((step.dimension@, p.mover.segment@))
            &&& p.dimensions.len() > 0
            &&& forall|d: Seq<char>|
                p.dimensions.contains(d) ==> !(#[trigger] drill::used_dimensions(step).contains(d))
        }),
    decreases n,
{
    if n > 0 {
        let front = level_plan(steps, frontier, raised, args, mode, drill, n - 1);
        let all = level_plan(steps, frontier, raised, args, mode, drill, n);
        let parent = frontier[n - 1] as int;
        let step = steps[parent];
        assert(frontier[n - 1] < steps.len());
        let candidates = step_candidates(step, raised[n - 1]@, args, mode);
        let dims = open_dimensions(step, drill);
        if k < front.0.len() {
            assert(all.0[k] == front.0[k]);
            law_probes_narrow(steps, frontier, raised, args, mode, drill, n - 1, k);
        } else {
            let added = candidate_probes(parent, step, candidates, dims, candidates.len() as int);
            lemma_candidate_probes(parent, step, candidates, dims, candidates.len() as int);
            assert(all.0[k] == added[k - front.0.len()]);
            list::lemma_keep(drill, drill::not_used(drill::used_dimensions(step)));
            let p = all.0[k];
            assert forall|d: Seq<char>| p.dimensions.contains(d) implies !(
            #[trigger] drill::used_dimensions(step).contains(d)) by {
                let i = choose|i: int| 0 <= i < dims.len() && dims[i] == d;
                assert(drill::not_used(drill::used_dimensions(step))(dims[i]));
            }
        }
    }
}

// ---------------------------------------------------------------------------
// Choosing a child
// ---------------------------------------------------------------------------

/// How one figure compares with another, up to a tolerance.
#[derive(Clone, Copy, Debug, PartialEq, Eq, Structural)]
pub enum Closeness {
    Above,
    Tied,
    Below,
}

/// How one dimension compares with another: by the gain over the parent's
/// score, by the change of the metric, and by the score.
#[derive(Clone, Copy, Debug)]
pub struct Rivalry {
    pub gain: Closeness,
    pub delta: Closeness,
    pub score: Closeness,
}

/// A dimension takes the place of the best one so far.
pub open spec fn beats(r: Rivalry, name: Seq<char>, best: Seq<char>) -> bool {
    r.gain == Closeness::Above || (r.gain == Closeness::Tied && (r.delta == Closeness::Above || (
    r.delta == Closeness::Tied && (r.score == Closeness::Above || (r.score == Closeness::Tied
        && order::text_less(name, best))))))
}

/// The best of the first `n` dimensions. `rivals[i][j]` compares dimension `i`
/// with an earlier dimension `j`.
pub open spec fn best_dimension(dims: Seq<Seq<char>>, rivals: Seq<Vec<Rivalry>>, n: int) -> int
    decreases n,
{
    if n <= 1 {
        0
    } else {
        let b = best_dimension(dims, rivals, n - 1);
        if beats(rivals[n - 1]@[b], dims[n - 1], dims[b]) {
            n - 1
        } else {
            b
        }
    }
}

/// Every dimension is compared with all earlier ones.
pub open spec fn compares_all(rivals: Seq<Vec<Rivalry>>, n: int) -> bool {
    rivals.len() == n && forall|i: int|
        0 <= i < n ==> (#[trigger] rivals[i])@.len() >= i
}

/// The best of some dimensions.
pub fn choose_dimension(dims: &Vec<String>, rivals: &Vec<Vec<Rivalry>>) -> (r: usize)
    requires
        dims.len() > 0,
        compares_all(rivals@, dims@.len() as int),
    ensures
        r < dims.len(),
        r == best_dimension(text::views(dims@), rivals@, dims@.len() as int),
{
    let ghost names = text::views(dims@);
    let mut best: usize = 0;
    let mut i: usize = 1;
    while i < dims.len()
        invariant
            1 <= i <= dims.len(),
            best < i,
            names == text::views(dims@),
            compares_all(rivals@, dims@.len() as int),
            best == best_dimension(names, rivals@, i as int),
        decreases dims.len() - i,
    {
        assert(rivals@[i as int]@.len() >= i);
        let r = rivals[i][best];
        let earlier: bool = text_before(dims[i].as_str(), dims[best].as_str());
        assert(names[i as int] == dims@[i as int]@ && names[best as int] == dims@[best as int]@);
        if r.gain == Closeness::Above || (r.gain == Closeness::Tied && (r.delta == Closeness::Above
            || (r.delta == Closeness::Tied && (r.score == Closeness::Above || (r.score
            == Closeness::Tied && earlier))))) {
            best = i;
        }
        i += 1;
    }
    best
}

/// What becomes of the best child of a probe.
#[derive(Clone, Copy, Debug, PartialEq, Eq, Structural)]
pub enum Verdict {
    LowDelta,
    LowImprovement,
    Drill,
}

/// A child is dropped where its change, raised by the tolerance, stays below
/// the one asked for, or its score below the one required.
pub open spec fn verdict(
    args: InvestigateWorkflowArgs,
    mode: InvestigationMode,
    raised_delta: Num,
    raised_score: Num,
    required_score: Num,
) -> Verdict {
    if asks_for_delta(args, mode) && raised_delta.lt(args.min_delta_abs) {
        Verdict::LowDelta
    } else if Num::zero_spec().lt(args.min_score_improvement) && raised_score.lt(required_score) {
        Verdict::LowImprovement
    } else {
        Verdict::Drill
    }
}

/// What becomes of a child.
pub fn judge_child(
    args: &InvestigateWorkflowArgs,
    mode: InvestigationMode,
    raised_delta: Num,
    raised_score: Num,
    required_score: Num,
) -> (r: Verdict)
    ensures
        r == verdict(*args, mode, raised_delta, raised_score, required_score),
{
    if wants_delta(args, mode) && raised_delta.less(args.min_delta_abs) {
        return Verdict::LowDelta;
    }
    if Num::zero().less(args.min_score_improvement) && raised_score.less(required_score) {
        return Verdict::LowImprovement;
    }
    Verdict::Drill
}

/// Why a segment was gone into. The change and the score come as texts.
pub open spec fn drill_decision(
    parent: InvestigationStep,
    mover: InvestigationMover,
    mode: InvestigationMode,
    next: Seq<char>,
    delta: Seq<char>,
    score: Seq<char>,
) -> Seq<char> {
    let detail = if mode == InvestigationMode::ConcentrationDrivers {
        "delta share "@ + delta + " pp, score "@ + score
    } else {
        "delta "@ + parent.primary_metric@ + " "@ + delta + ", score "@ + score
    };
    "selected "@ + parent.dimension@ + "='"@ + mover.segment@ + "' ("@ + detail
        + ") and drilled by "@ + next
}

/// Why a segment was gone into. `delta` is the text of the change of its share
/// where concentration is asked for, else of its change of the metric.
pub fn deterministic_drill_decision(
    parent_step: &InvestigationStep,
    mover: &InvestigationMover,
    mode: InvestigationMode,
    next_dimension: &str,
    delta: &str,
    score: &str,
) -> (r: String)
    ensures
        r@ == drill_decision(*parent_step, *mover, mode, next_dimension@, delta@, score@),
{
    let detail = if mode == InvestigationMode::ConcentrationDrivers {
        let mut d = cat3("delta share ", delta, " pp, score ");
        d.append(score);
        d
    } else {
        let mut d = cat5("delta ", parent_step.primary_metric.as_str(), " ", delta, ", score ");
        d.append(score);
        d
    };
    let mut out = cat5(
        "selected ",
        parent_step.dimension.as_str(),
        "='",
        mover.segment.as_str(),
        "' (",
    );
    out.append(detail.as_str());
    out.append(") and drilled by ");
    out.append(next_dimension);
    out
}

// ---------------------------------------------------------------------------
// The search
// ---------------------------------------------------------------------------

/// A search: its steps and its log, the steps whose segments are gone into
/// next, and the level at work. `depth` is the number of bindings in the
/// scopes of that level.
#[derive(Debug)]
pub struct DrillSearch {
    pub steps: Vec<InvestigationStep>,
    pub trace: Vec<InvestigationTraceStep>,
    pub frontier: Vec<usize>,
    pub depth: usize,
    pub probes: Vec<Probe>,
    pub at: usize,
    pub found: Vec<usize>,
    pub notes: LevelNotes,
}

impl DrillSearch {
    /// Every entry of the log has a step with the same scope; the scopes have
    /// at most as many bindings as the level; the probes narrow steps of the
    /// search and can be looked at along some dimension.
    pub open spec fn is_valid(self) -> bool {
        &&& self.steps@.len() == self.trace@.len()
        &&& self.steps@.len() > 0
        &&& self.depth >= 1
        &&& forall|i: int|
            0 <= i < self.steps@.len() ==> scope::bindings((#[trigger] self.steps@[i]).scope@)
                == scope::bindings(self.trace@[i].scope@) && self.steps@[i].scope@.len()
                <= self.depth
        &&& forall|i: int|
            0 <= i < self.frontier@.len() ==> (#[trigger] self.frontier@[i]) < self.steps@.len()
                && self.steps@[self.frontier@[i] as int].scope@.len() == self.depth - 1
        &&& forall|i: int|
            0 <= i < self.found@.len() ==> (#[trigger] self.found@[i]) < self.steps@.len()
                && self.steps@[self.found@[i] as int].scope@.len() == self.depth
        &&& self.at <= self.probes@.len()
        &&& forall|i: int|
            0 <= i < self.probes@.len() ==> (#[trigger] self.probes@[i]).parent < self.steps@.len()
                && self.probes@[i].scope@.len() == self.depth && self.probes@[i].dimensions@.len()
                > 0
    }
}

/// A search that has looked at the whole data.
pub fn start_search(root: InvestigationStep, top_dimension: &str) -> (r: DrillSearch)
    requires
        root.scope@.len() == 0,
    ensures
        r.is_valid(),
        r.steps@ == seq![root],
        trace_views(r.trace@) == seq![
            TraceView {
                depth: 0,
                action: "top_level_compare"@,
                decision: "ran base/new comparison grouped by "@ + top_dimension@,
                scope: Seq::empty(),
                stopping_reason: None,
            },
        ],
        r.frontier@ == seq![0usize],
        r.depth == 1,
        r.probes@.len() == 0,
        r.at == 0,
        r.found@.len() == 0,
{
    let mut trace: Vec<InvestigationTraceStep> = Vec::new();
    let none: Vec<(String, String)> = Vec::new();
    trace.push(
        InvestigationTraceStep {
            depth: 0,
            action: "top_level_compare".to_owned(),
            decision: cat2("ran base/new comparison grouped by ", top_dimension),
            scope: none,
            stopping_reason: None,
        },
    );
    assert(scope::bindings(none@) =~= Seq::empty());
    assert(scope::bindings(root.scope@) =~= Seq::empty());
    assert(trace_views(trace@) =~= seq![trace@[0]@]);
    let mut steps: Vec<InvestigationStep> = Vec::new();
    steps.push(root);
    let mut frontier: Vec<usize> = Vec::new();
    frontier.push(0);
    assert(steps@ =~= seq![root]);
    DrillSearch {
        steps,
        trace,
        frontier,
        depth: 1,
        probes: Vec::new(),
        at: 0,
        found: Vec::new(),
        notes: LevelNotes {
            next_dimension: false,
            eligible: false,
            composite: false,
            low_delta: false,
            low_improvement: false,
        },
    }
}

pub open spec fn depth_message(max_depth: usize) -> Seq<char> {
    "reached max depth "@ + digits::decimal(max_depth as nat)
}

/// Why no level is begun.
pub open spec fn level_barrier(
    depth: usize,
    args: InvestigateWorkflowArgs,
    kind: InvestigateInputKind,
) -> Option<Seq<char>> {
    if depth >= args.max_depth {
        Some(depth_message(args.max_depth))
    } else if kind == InvestigateInputKind::JsonArtifacts {
        Some(
            "stopped after top-level analysis: drill-down requires CSV datasets, but --base/--new are JSON artifacts"@,
        )
    } else {
        None
    }
}

impl DrillSearch {
    /// Begins a level: plans its probes, or says why there is no further one.
    pub fn begin_level(
        &mut self,
        args: &InvestigateWorkflowArgs,
        mode: InvestigationMode,
        kind: InvestigateInputKind,
        drill_dimensions: &[String],
        raised: &Vec<Vec<Num>>,
    ) -> (r: Option<String>)
        requires
            old(self).is_valid(),
            fits_frontier(old(self).steps@, old(self).frontier@, raised@),
        ensures
            final(self).is_valid(),
            final(self).steps@ == old(self).steps@,
            final(self).trace@ == old(self).trace@,
            final(self).frontier@ == old(self).frontier@,
            final(self).depth == old(self).depth,
            planner::optional_text(r) == level_barrier(old(self).depth, *args, kind),
            r is None ==> (probe_views(final(self).probes@), final(self).notes) == level_plan(
                old(self).steps@,
                old(self).frontier@,
                raised@,
                *args,
                mode,
                text::views(drill_dimensions@),
                old(self).frontier@.len() as int,
            ) && final(self).at == 0 && final(self).found@.len() == 0,
    {
        if self.depth >= args.max_depth {
            return Some(cat2("reached max depth ", count_text(args.max_depth).as_str()));
        }
        if kind == InvestigateInputKind::JsonArtifacts {
            return Some(
                "stopped after top-level analysis: drill-down requires CSV datasets, but --base/--new are JSON artifacts".to_owned(),
            );
        }
        let (probes, notes) = plan_level(
            &self.steps,
            &self.frontier,
            raised,
            args,
            mode,
            drill_dimensions,
        );
        proof {
            let drill = text::views(drill_dimensions@);
            let n = self.frontier@.len() as int;
            assert forall|i: int| 0 <= i < probes@.len() implies (#[trigger] probes@[i]).parent
                < self.steps@.len() && probes@[i].scope@.len() == self.depth
                && probes@[i].dimensions@.len() > 0 by {
                law_probes_narrow(
                    self.steps@,
                    self.frontier@,
                    raised@,
                    *args,
                    mode,
                    drill,
                    n,
                    i,
                );
                lemma_probe_parents(
                    self.steps@,
                    self.frontier@,
                    raised@,
                    *args,
                    mode,
                    drill,
                    n,
                    i,
                );
                let p = probe_views(probes@)[i];
                assert(p == probes@[i]@);
                assert(scope::bindings(probes@[i].scope@).len() == probes@[i].scope@.len());
                assert(text::views(probes@[i].dimensions@).len() == probes@[i].dimensions@.len());
            }
        }
        self.probes = probes;
        self.notes = notes;
        self.at = 0;
        self.found = Vec::new();
        None
    }
}

proof fn lemma_probe_parents(
    steps: Seq<InvestigationStep>,
    frontier: Seq<usize>,
    raised: Seq<Vec<Num>>,
    args: InvestigateWorkflowArgs,
    mode: InvestigationMode,
    drill: Seq<Seq<char>>,
    n: int,
    k: int,
)
    requires
        0 <= n <= frontier.len(),
        0 <= k < level_plan(steps, frontier, raised, args, mode, drill, n).0.len(),
    ensures
        exists|j: int|
            0 <= j < frontier.len() && level_plan(
                steps,
                frontier,
                raised,
                args,
                mode,
                drill,
                n,
            ).0[k].parent == #[trigger] frontier[j],
    decreases n,
{
    if n > 0 {
        let front = level_plan(steps, frontier, raised, args, mode, drill, n - 1);
        let all = level_plan(steps, frontier, raised, args, mode, drill, n);
        let parent = frontier[n - 1] as int;
        let step = steps[parent];
        let candidates = step_candidates(step, raised[n - 1]@, args, mode);
        let dims = open_dimensions(step, drill);
        if k < front.0.len() {
            assert(all.0[k] == front.0[k]);
            lemma_probe_parents(steps, frontier, raised, args, mode, drill, n - 1, k);
        } else {
            lemma_candidate_probes(parent, step, candidates, dims, candidates.len() as int);
            let added = candidate_probes(parent, step, candidates, dims, candidates.len() as int);
            assert(all.0[k] == added[k - front.0.len()]);
            assert(all.0[k].parent == frontier[n - 1]);
        }
    }
}

/// What was found for a probe: a step along each of its dimensions, with its
/// change and its score raised by the tolerance, the comparisons among the
/// dimensions, the score that a child is required to reach, and the texts of
/// the segment's change and score.
#[derive(Debug)]
pub struct Finding {
    pub steps: Vec<InvestigationStep>,
    pub rivals: Vec<Vec<Rivalry>>,
    pub raised_deltas: Vec<Num>,
    pub raised_scores: Vec<Num>,
    pub required_score: Num,
    pub delta_text: String,
    pub score_text: String,
}

/// The finding answers the probe.
pub open spec fn answers_probe(f: Finding, p: Probe) -> bool {
    let n = p.dimensions@.len() as int;
    &&& f.steps@.len() == n
    &&& compares_all(f.rivals@, n)
    &&& f.raised_deltas@.len() == n
    &&& f.raised_scores@.len() == n
    &&& forall|i: int|
        0 <= i < n ==> scope::bindings((#[trigger] f.steps@[i]).scope@) == scope::bindings(p.scope@)
}

/// The dimension that is chosen for a probe.
pub open spec fn chosen(f: Finding, p: Probe) -> int {
    best_dimension(text::views(p.dimensions@), f.rivals@, p.dimensions@.len() as int)
}

/// What becomes of the chosen child.
pub open spec fn finding_verdict(
    f: Finding,
    p: Probe,
    args: InvestigateWorkflowArgs,
    mode: InvestigationMode,
) -> Verdict {
    verdict(
        args,
        mode,
        f.raised_deltas@[chosen(f, p)],
        f.raised_scores@[chosen(f, p)],
        f.required_score,
    )
}

impl DrillSearch {
    /// Takes what was found for the next probe: the best child joins the
    /// search, or a note says why not.
    pub fn take_finding(
        &mut self,
        args: &InvestigateWorkflowArgs,
        mode: InvestigationMode,
        finding: Finding,
    ) -> (r: Verdict)
        requires
            old(self).is_valid(),
            old(self).at < old(self).probes@.len(),
            answers_probe(finding, old(self).probes@[old(self).at as int]),
        ensures
            final(self).is_valid(),
            final(self).frontier@ == old(self).frontier@,
            final(self).depth == old(self).depth,
            final(self).probes@ == old(self).probes@,
            final(self).at == old(self).at + 1,
            r == finding_verdict(finding, old(self).probes@[old(self).at as int], *args, mode),
            ({
                let p = old(self).probes@[old(self).at as int];
                let k = chosen(finding, p);
                &&& r == Verdict::Drill ==> {
                    &&& final(self).steps@ == old(self).steps@.push(finding.steps@[k])
                    &&& final(self).found@ == old(self).found@.push(old(self).steps@.len() as usize)
                    &&& final(self).notes == old(self).notes
                    &&& trace_views(final(self).trace@) == trace_views(old(self).trace@).push(
                        TraceView {
                            depth: old(self).depth as int,
                            action: "drill_down"@,
                            decision: drill_decision(
                                old(self).steps@[p.parent as int],
                                p.mover,
                                mode,
                                p.dimensions@[k]@,
                                finding.delta_text@,
                                finding.score_text@,
                            ),
                            scope: scope::bindings(p.scope@),
                            stopping_reason: None,
                        },
                    )
                }
                &&& r != Verdict::Drill ==> {
                    &&& final(self).steps@ == old(self).steps@
                    &&& final(self).found@ == old(self).found@
                    &&& final(self).trace@ == old(self).trace@
                    &&& final(self).notes == (LevelNotes {
                        low_delta: old(self).notes.low_delta || r == Verdict::LowDelta,
                        low_improvement: old(self).notes.low_improvement || r
                            == Verdict::LowImprovement,
                        ..old(self).notes
                    })
                }
            }),
    {
        let at: usize = self.at;
        let total: usize = self.probes.len();
        assert(at < total);
        let k: usize = choose_dimension(&self.probes[at].dimensions, &finding.rivals);
        let v = judge_child(
            args,
            mode,
            finding.raised_deltas[k],
            finding.raised_scores[k],
            finding.required_score,
        );
        match v {
            Verdict::LowDelta => {
                self.notes.low_delta = true;
            },
            Verdict::LowImprovement => {
                self.notes.low_improvement = true;
            },
            Verdict::Drill => {
                let ghost log = trace_views(self.trace@);
                let p = &self.probes[at];
                let decision = deterministic_drill_decision(
                    &self.steps[p.parent],
                    &p.mover,
                    mode,
                    p.dimensions[k].as_str(),
                    finding.delta_text.as_str(),
                    finding.score_text.as_str(),
                );
                let scope = copy_scope(p.scope.as_slice());
                let ghost wanted = scope::bindings(p.scope@);
                let depth: usize = self.depth;
                self.trace.push(
                    InvestigationTraceStep {
                        depth,
                        action: "drill_down".to_owned(),
                        decision,
                        scope,
                        stopping_reason: None,
                    },
                );
                assert(trace_views(self.trace@) =~= log.push(self.trace@.last()@));
                let mut steps = finding.steps;
                let child = steps.remove(k);
                assert(scope::bindings(child.scope@).len() == child.scope@.len());
                assert(wanted.len() == self.probes@[at as int].scope@.len());
                let place: usize = self.steps.len();
                self.found.push(place);
                self.steps.push(child);
            },
        }
        self.at = at + 1;
        v
    }
}

/// The texts of the thresholds.
#[derive(Debug)]
pub struct ThresholdTexts {
    pub min_delta_abs: String,
    pub min_score_improvement: String,
    pub min_contribution: String,
}

/// Why a level added nothing.
pub open spec fn barren_reason(
    notes: LevelNotes,
    args: InvestigateWorkflowArgs,
    texts: ThresholdTexts,
) -> Seq<char> {
    if !notes.next_dimension {
        "no remaining drill dimension was available"@
    } else if notes.low_delta {
        "no drill candidate met absolute-delta threshold (min_delta_abs="@ + texts.min_delta_abs@
            + ")"@
    } else if notes.low_improvement {
        "no drill candidate met score-improvement threshold (min_score_improvement="@
            + texts.min_score_improvement@ + ")"@
    } else if !notes.eligible {
        "no drill candidate met thresholds (min_contribution="@ + texts.min_contribution@
            + ", min_slice_rows="@ + digits::decimal(args.min_slice_rows as nat) + ")"@
    } else if notes.composite {
        "top drill candidates were composite groups; use one dimension per step in v1"@
    } else {
        "no drill-down branch could be expanded"@
    }
}

fn explain_barren_level(
    notes: LevelNotes,
    args: &InvestigateWorkflowArgs,
    texts: &ThresholdTexts,
) -> (r: String)
    ensures
        r@ == barren_reason(notes, *args, *texts),
{
    if !notes.next_dimension {
        "no remaining drill dimension was available".to_owned()
    } else if notes.low_delta {
        cat3(
            "no drill candidate met absolute-delta threshold (min_delta_abs=",
            texts.min_delta_abs.as_str(),
            ")",
        )
    } else if notes.low_improvement {
        cat3(
            "no drill candidate met score-improvement threshold (min_score_improvement=",
            texts.min_score_improvement.as_str(),
            ")",
        )
    } else if !notes.eligible {
        cat5(
            "no drill candidate met thresholds (min_contribution=",
            texts.min_contribution.as_str(),
            ", min_slice_rows=",
            decimal_text(args.min_slice_rows).as_str(),
            ")",
        )
    } else if notes.composite {
        "top drill candidates were composite groups; use one dimension per step in v1".to_owned()
    } else {
        "no drill-down branch could be expanded".to_owned()
    }
}

impl DrillSearch {
    /// Ends a level: the steps that it found are gone into next. Where it
    /// found none, the search stops, and the reason says why.
    pub fn end_level(&mut self, args: &InvestigateWorkflowArgs, texts: &ThresholdTexts) -> (r:
        Option<String>)
        requires
            old(self).is_valid(),
            old(self).at == old(self).probes@.len(),
            old(self).depth < args.max_depth,
        ensures
            final(self).is_valid(),
            final(self).steps@ == old(self).steps@,
            final(self).trace@ == old(self).trace@,
            old(self).found@.len() == 0 ==> r is Some && r->0@ == barren_reason(
                old(self).notes,
                *args,
                *texts,
            ),
            old(self).found@.len() > 0 ==> r is None && final(self).frontier@ == old(self).found@
                && final(self).depth == old(self).depth + 1,
    {
        if self.found.len() == 0 {
            return Some(explain_barren_level(self.notes, args, texts));
        }
        let ghost found = self.found@;
        let mut next: Vec<usize> = Vec::new();
        let mut i: usize = 0;
        while i < self.found.len()
            invariant
                i <= self.found@.len(),
                self.found@ == found,
                next@ == found.take(i as int),
            decreases self.found.len() - i,
        {
            next.push(self.found[i]);
            assert(next@ =~= found.take(i + 1));
            i += 1;
        }
        assert(next@ =~= found);
        self.frontier = next;
        self.depth = self.depth + 1;
        self.found = Vec::new();
        self.probes = Vec::new();
        self.at = 0;
        None
    }
}

/// No step of a search has as many bindings in its scope as the search may go
/// deep, while a level can still be begun.
pub proof fn law_search_stays_within_depth(
    search: DrillSearch,
    args: InvestigateWorkflowArgs,
    kind: InvestigateInputKind,
)
    requires
        search.is_valid(),
        level_barrier(search.depth, args, kind) is None,
    ensures
        forall|i: int|
            0 <= i < search.steps@.len() ==> (#[trigger] search.steps@[i]).scope@.len()
                < args.max_depth,
{
}

/// A child step is gone into exactly where it passes both thresholds: the change
/// of its metric, unless concentration is asked for or the threshold is not
/// above zero, and the gain of its score, unless that threshold is not above
/// zero. The first of the two that it misses is named.
pub proof fn law_children_are_judged_by_both_thresholds(
    args: InvestigateWorkflowArgs,
    mode: InvestigationMode,
    raised_delta: Num,
    raised_score: Num,
    required_score: Num,
)
    requires
        !args.min_delta_abs.is_nan() && !args.min_score_improvement.is_nan(),
        !raised_delta.is_nan() && !raised_score.is_nan() && !required_score.is_nan(),
    ensures
        ({
            let enough_delta = mode == InvestigationMode::ConcentrationDrivers
                || args.min_delta_abs.rank() <= 0 || args.min_delta_abs.rank()
                <= raised_delta.rank();
            let enough_gain = args.min_score_improvement.rank() <= 0 || required_score.rank()
                <= raised_score.rank();
            let v = verdict(args, mode, raised_delta, raised_score, required_score);
            &&& v == Verdict::Drill <==> enough_delta && enough_gain
            &&& v == Verdict::LowDelta <==> !enough_delta
            &&& v == Verdict::LowImprovement <==> enough_delta && !enough_gain
        }),
{
}

proof fn lemma_best_dimension_range(dims: Seq<Seq<char>>, rivals: Seq<Vec<Rivalry>>, n: int)
    requires
        1 <= n <= dims.len(),
    ensures
        0 <= best_dimension(dims, rivals, n) < n,
    decreases n,
{
    if n > 1 {
        lemma_best_dimension_range(dims, rivals, n - 1);
    }
}

/// A dimension that gains more than every one before it, and than which none
/// behind it gains more or as much, is the one to go along.
pub proof fn law_the_dimension_of_largest_gain_is_chosen(
    dims: Seq<Seq<char>>,
    rivals: Seq<Vec<Rivalry>>,
    n: int,
    k: int,
)
    requires
        0 <= k < n <= dims.len(),
        forall|j: int| 0 <= j < k ==> (#[trigger] rivals[k]@[j]).gain == Closeness::Above,
        forall|i: int| k < i < n ==> (#[trigger] rivals[i]@[k]).gain == Closeness::Below,
    ensures
        best_dimension(dims, rivals, n) == k,
    decreases n,
{
    if n - 1 == k {
        if k > 0 {
            lemma_best_dimension_range(dims, rivals, k);
            let b = best_dimension(dims, rivals, k);
            assert(rivals[k]@[b].gain == Closeness::Above);
        }
    } else {
        law_the_dimension_of_largest_gain_is_chosen(dims, rivals, n - 1, k);
        assert(rivals[n - 1]@[k].gain == Closeness::Below);
    }
}

proof fn lemma_probes_of_candidates(
    parent: int,
    step: InvestigationStep,
    candidates: Seq<InvestigationMover>,
    dims: Seq<Seq<char>>,
    n: int,
)
    requires
        0 <= n <= candidates.len(),
    ensures
        forall|k: int|
            0 <= k < candidate_probes(parent, step, candidates, dims, n).len() ==> ({
                let p = #[trigger] candidate_probes(parent, step, candidates, dims, n)[k];
                &&& p.parent == parent
                &&& p.dimensions == dims
                &&& candidates.contains(p.mover)
                &&& !scan::contains(p.mover.segment@, " | "@)
            }),
        forall|i: int|
            0 <= i < n && !scan::contains((#[trigger] candidates[i]).segment@, " | "@)
                ==> looks_into(
                candidate_probes(parent, step, candidates, dims, n),
                parent,
                candidates[i],
            ),
    decreases n,
{
    if n > 0 {
        lemma_probes_of_candidates(parent, step, candidates, dims, n - 1);
        let front = candidate_probes(parent, step, candidates, dims, n - 1);
        let all = candidate_probes(parent, step, candidates, dims, n);
        assert(candidates.contains(candidates[n - 1]));
        assert forall|k: int| 0 <= k < front.len() implies #[trigger] all[k] == front[k] by {}
        assert forall|i: int|
            0 <= i < n && !scan::contains(
                (#[trigger] candidates[i]).segment@,
                " | "@,
            ) implies looks_into(all, parent, candidates[i]) by {
            if i < n - 1 {
                assert(looks_into(front, parent, candidates[i]));
                let k = choose|k: int|
                    0 <= k < front.len() && (#[trigger] front[k]).parent == parent
                        && front[k].mover == candidates[i];
                assert(all[k] == front[k]);
            } else {
                assert(all[all.len() - 1].mover == candidates[i]);
            }
        }
    }
}

/// A probe looks into a segment of a step.
pub open spec fn looks_into(
    probes: Seq<ProbeView>,
    parent: int,
    mover: InvestigationMover,
) -> bool {
    exists|k: int|
        0 <= k < probes.len() && (#[trigger] probes[k]).parent == parent && probes[k].mover == mover
}

/// The probes of a level look into segments of its frontier that pass the
/// thresholds and stand for a single dimension. Each looks along all dimensions
/// that its step has not used. Where there is such a dimension, every candidate
/// of a frontier step is looked into, but for those that stand for several.
pub proof fn law_probes_look_into_the_candidates(
    steps: Seq<InvestigationStep>,
    frontier: Seq<usize>,
    raised: Seq<Vec<Num>>,
    args: InvestigateWorkflowArgs,
    mode: InvestigationMode,
    drill: Seq<Seq<char>>,
    n: int,
)
    requires
        0 <= n <= frontier.len(),
        fits_frontier(steps, frontier, raised),
    ensures
        ({
            let probes = level_plan(steps, frontier, raised, args, mode, drill, n).0;
            &&& forall|k: int|
                0 <= k < probes.len() ==> is_probe_of_frontier(
                    #[trigger] probes[k],
                    steps,
                    frontier,
                    raised,
                    args,
                    mode,
                    drill,
                    n,
                )
            &&& forall|f: int, m: InvestigationMover|
                0 <= f < n && open_dimensions(steps[#[trigger] frontier[f] as int], drill).len() > 0
                    && !scan::contains(m.segment@, " | "@) && #[trigger] step_candidates(
                    steps[frontier[f] as int],
                    raised[f]@,
                    args,
                    mode,
                ).contains(m) ==> looks_into(probes, frontier[f] as int, m)
        }),
    decreases n,
{
    if n > 0 {
        law_probes_look_into_the_candidates(steps, frontier, raised, args, mode, drill, n - 1);
        let front = level_plan(steps, frontier, raised, args, mode, drill, n - 1).0;
        let all = level_plan(steps, frontier, raised, args, mode, drill, n).0;
        let parent = frontier[n - 1] as int;
        let step = steps[parent];
        let dims = open_dimensions(step, drill);
        let candidates = step_candidates(step, raised[n - 1]@, args, mode);
        let added = candidate_probes(parent, step, candidates, dims, candidates.len() as int);
        lemma_probes_of_candidates(parent, step, candidates, dims, candidates.len() as int);
        assert forall|k: int| 0 <= k < all.len() implies is_probe_of_frontier(
            #[trigger] all[k],
            steps,
            frontier,
            raised,
            args,
            mode,
            drill,
            n,
        ) by {
            if k < front.len() {
                assert(all[k] == front[k]);
                let f = choose|f: int|
                    0 <= f < n - 1 && all[k].parent == #[trigger] frontier[f] as int
                        && step_candidates(
                        steps[frontier[f] as int],
                        raised[f]@,
                        args,
                        mode,
                    ).contains(all[k].mover);
                assert(all[k].parent == frontier[f] as int);
            } else {
                assert(all[k] == added[k - front.len()]);
                assert(all[k].parent == frontier[n - 1] as int);
            }
        }
        assert forall|f: int, m: InvestigationMover|
            0 <= f < n && open_dimensions(steps[#[trigger] frontier[f] as int], drill).len() > 0
                && !scan::contains(m.segment@, " | "@) && #[trigger] step_candidates(
                steps[frontier[f] as int],
                raised[f]@,
                args,
                mode,
            ).contains(m) implies looks_into(all, frontier[f] as int, m) by {
            if f < n - 1 {
                assert(looks_into(front, frontier[f] as int, m));
                let k = choose|k: int|
                    0 <= k < front.len() && (#[trigger] front[k]).parent == frontier[f] as int
                        && front[k].mover == m;
                assert(all[k] == front[k]);
            } else {
                let i = choose|i: int| 0 <= i < candidates.len() && candidates[i] == m;
                assert(looks_into(added, parent, candidates[i]));
                let k = choose|k: int|
                    0 <= k < added.len() && (#[trigger] added[k]).parent == parent && added[k].mover
                        == m;
                assert(all[front.len() + k] == added[k]);
            }
        }
    }
}

/// A probe looks into a candidate of a frontier step, along the dimensions that
/// the step has not used.
pub open spec fn is_probe_of_frontier(
    p: ProbeView,
    steps: Seq<InvestigationStep>,
    frontier: Seq<usize>,
    raised: Seq<Vec<Num>>,
    args: InvestigateWorkflowArgs,
    mode: InvestigationMode,
    drill: Seq<Seq<char>>,
    n: int,
) -> bool {
    &&& exists|f: int|
        0 <= f < n && p.parent == #[trigger] frontier[f] as int && step_candidates(
            steps[frontier[f] as int],
            raised[f]@,
            args,
            mode,
        ).contains(p.mover)
    &&& p.dimensions == list::keep(
        drill,
        drill::not_used(drill::used_dimensions(steps[p.parent])),
    )
    &&& !scan::contains(p.mover.segment@, " | "@)
}

/// The options are accepted exactly where the search has a level, a branch and a
/// mover and no threshold is below zero.
pub proof fn law_options_have_to_leave_something_to_search(args: InvestigateWorkflowArgs)
    requires
        !args.min_delta_abs.is_nan() && !args.min_score_improvement.is_nan(),
    ensures
        option_error(args) is None <==> args.max_depth >= 1 && args.max_branches >= 1
            && args.top_movers >= 1 && args.min_delta_abs.rank() >= 0
            && args.min_score_improvement.rank() >= 0,
{
}

/// A search that is accepted has at most 256 branches: the number of branches
/// taken once for every level below the first.
pub proof fn law_accepted_searches_are_small(args: InvestigateWorkflowArgs)
    requires
        search_error(args) is None,
        args.max_depth <= 0x1_0000_0000,
    ensures
        vstd::arithmetic::power::pow(args.max_branches as int, (args.max_depth - 1) as nat) <= 256,
        args.max_depth == 2 ==> args.max_branches <= 256,
{
    let b = args.max_branches as int;
    let e = (args.max_depth - 1) as nat;
    assert((args.max_depth - 1) % 0x1_0000_0000 == args.max_depth - 1);
    assert(capped_power(b, e) <= 256);
    if args.max_depth == 2 {
        vstd::arithmetic::power::lemma_pow1(b);
    }
}

/// Closing a trace writes the reason into its last entry and changes nothing
/// else.
pub proof fn law_closing_marks_the_last_entry(trace: Seq<TraceView>, reason: Seq<char>)
    ensures
        closed_trace(trace, reason).len() == trace.len(),
        forall|i: int|
            0 <= i < trace.len() - 1 ==> #[trigger] closed_trace(trace, reason)[i] == trace[i],
        trace.len() > 0 ==> ({
            let last = closed_trace(trace, reason)[trace.len() - 1];
            last.stopping_reason == Some(reason) && last.decision == trace.last().decision
                && last.action == trace.last().action && last.scope == trace.last().scope
                && last.depth == trace.last().depth
        }),
{
}

} // verus!
