//! Which segments an investigation goes down into, and along which dimensions.

use vstd::prelude::*;

use crate::answers;
use crate::args;
use crate::args::{mode_from_arg, InvestigateInputKind, InvestigateWorkflowArgs, InvestigationMode};
use crate::investigation::{
    copy_mover, InvestigationMajorChange, InvestigationMover, InvestigationStep,
};
use crate::list;
use crate::num::Num;
use crate::order;
use crate::order::{sort_by, text_before};
use crate::planner;
use crate::planner::{first_drillable, InvestigationExecAction};
use crate::scan;
use crate::scan::mentions;
use crate::scope;
use crate::scope::copy_scope;
use crate::text;
use crate::text::{blank, cat5, eq_ignore_case, same, to_lower_case};

verus! {

// ---------------------------------------------------------------------------
// Modes
// ---------------------------------------------------------------------------

/// The mode that a question, in lower case, asks for.
pub open spec fn routed_mode(q: Seq<char>) -> InvestigationMode {
    if scan::contains(q, "concentration"@) || scan::contains(q, "concentrated"@) {
        InvestigationMode::ConcentrationDrivers
    } else if scan::contains(q, "what should i inspect"@) || scan::contains(
        q,
        "what should we inspect"@,
    ) || scan::contains(q, "what next"@) || scan::contains(q, "inspect next"@) {
        InvestigationMode::RecommendNext
    } else if scan::contains(q, "compare"@) || scan::contains(q, "biggest shift"@)
        || scan::contains(q, "biggest change"@) || scan::contains(q, "largest change"@) {
        InvestigationMode::CompareSnapshots
    } else {
        InvestigationMode::ChangeDrivers
    }
}

/// The mode that a question, already in lower case, asks for.
pub fn route_lowered_question(q: &str) -> (r: InvestigationMode)
    ensures
        r == routed_mode(q@),
{
    if mentions(q, "concentration") || mentions(q, "concentrated") {
        return InvestigationMode::ConcentrationDrivers;
    }
    if mentions(q, "what should i inspect") || mentions(q, "what should we inspect") || mentions(
        q,
        "what next",
    ) || mentions(q, "inspect next") {
        return InvestigationMode::RecommendNext;
    }
    if mentions(q, "compare") || mentions(q, "biggest shift") || mentions(q, "biggest change")
        || mentions(q, "largest change") {
        return InvestigationMode::CompareSnapshots;
    }
    InvestigationMode::ChangeDrivers
}

/// The mode that a question asks for.
pub fn route_investigation_mode(question: &str) -> (r: InvestigationMode)
    ensures
        r == routed_mode(text::lower_case(question@)),
{
    let q = to_lower_case(question);
    route_lowered_question(q.as_str())
}

/// The mode of an investigation: the one that is named, else the one that the
/// question asks for.
pub fn resolve_investigation_mode(args: &InvestigateWorkflowArgs) -> (r: InvestigationMode)
    ensures
        r == (match args.mode {
            Some(m) => args::mode_of(m),
            None => routed_mode(text::lower_case(args.question@)),
        }),
{
    match args.mode {
        Some(m) => mode_from_arg(m),
        None => route_investigation_mode(args.question.as_str()),
    }
}

// ---------------------------------------------------------------------------
// Scores and thresholds
// ---------------------------------------------------------------------------

/// How strongly a segment moved, in the terms of the mode.
pub open spec fn score(mover: InvestigationMover, mode: InvestigationMode) -> Num {
    if mode == InvestigationMode::ConcentrationDrivers {
        mover.delta_share_pp.abs_spec()
    } else {
        mover.delta_primary_metric_value.abs_spec()
    }
}

/// How strongly a segment moved: the change of its share where concentration
/// is asked for, else the change of the metric.
pub fn mover_score(mover: &InvestigationMover, mode: InvestigationMode) -> (r: Num)
    ensures
        r == score(*mover, mode),
{
    match mode {
        InvestigationMode::ConcentrationDrivers => mover.delta_share_pp.abs(),
        _ => mover.delta_primary_metric_value.abs(),
    }
}

/// `a` is stronger than `b`, or as strong and before it by name.
pub open spec fn is_stronger(
    mode: InvestigationMode,
    a: InvestigationMover,
    b: InvestigationMover,
) -> bool {
    score(b, mode).lt(score(a, mode)) || (!score(a, mode).lt(score(b, mode)) && order::text_less(
        a.segment@,
        b.segment@,
    ))
}

/// Stronger movers come first; equally strong ones in the order of their names.
pub open spec fn stronger(mode: InvestigationMode) -> spec_fn(
    InvestigationMover,
    InvestigationMover,
) -> bool {
    |a: InvestigationMover, b: InvestigationMover| is_stronger(mode, a, b)
}

fn precedes_mover(a: &InvestigationMover, b: &InvestigationMover, mode: InvestigationMode) -> (r: bool)
    ensures
        r == is_stronger(mode, *a, *b),
{
    let sa = mover_score(a, mode);
    let sb = mover_score(b, mode);
    sb.less(sa) || (!sa.less(sb) && text_before(a.segment.as_str(), b.segment.as_str()))
}

/// Sorts movers: the strongest first, equally strong ones by name.
pub fn sort_movers(movers: Vec<InvestigationMover>, mode: InvestigationMode) -> (r: Vec<
    InvestigationMover,
>)
    ensures
        r@ == order::sorted(movers@, stronger(mode)),
{
    let precedes = |a: &InvestigationMover, b: &InvestigationMover| -> (x: bool)
        ensures
            x == is_stronger(mode, *a, *b),
        { precedes_mover(a, b, mode) };
    sort_by(movers, precedes, Ghost(stronger(mode)))
}

/// The strongest movers, at most `top_movers` but at least one.
pub open spec fn ranked_movers(
    movers: Seq<InvestigationMover>,
    mode: InvestigationMode,
    top_movers: usize,
) -> Seq<InvestigationMover> {
    answers::at_most(order::sorted(movers, stronger(mode)), answers::bullet_limit(top_movers))
}

/// Sorts the movers of a comparison and keeps the first `top_movers`, at least one.
pub fn rank_movers(movers: Vec<InvestigationMover>, mode: InvestigationMode, top_movers: usize) -> (r:
    Vec<InvestigationMover>)
    ensures
        r@ == ranked_movers(movers@, mode, top_movers),
{
    let mut out = sort_movers(movers, mode);
    let n: usize = if top_movers < 1 {
        1
    } else {
        top_movers
    };
    out.truncate(n);
    out
}

/// A segment with a name, enough records before or after, and a strong enough move.
pub open spec fn meets_thresholds(
    mover: InvestigationMover,
    mode: InvestigationMode,
    min_contribution: Num,
    min_slice_rows: u64,
) -> bool {
    &&& planner::drillable(mover.segment@)
    &&& (mover.base_records >= min_slice_rows || mover.new_records >= min_slice_rows)
    &&& min_contribution.le(score(mover, mode))
}

/// Whether a segment has a name, enough records before or after, and moved
/// strongly enough.
pub fn drill_candidate_matches_base_thresholds(
    mover: &InvestigationMover,
    mode: InvestigationMode,
    min_contribution: Num,
    min_slice_rows: u64,
) -> (r: bool)
    ensures
        r == meets_thresholds(*mover, mode, min_contribution, min_slice_rows),
{
    let seg = mover.segment.as_str();
    !blank(seg) && !same(seg, "(blank)") && !same(seg, "(unknown)") && (mover.base_records
        >= min_slice_rows || mover.new_records >= min_slice_rows) && min_contribution.at_most(
        mover_score(mover, mode),
    )
}

/// The movers at the first `n` positions that can be gone into. `raised` holds
/// each mover's absolute change of the metric, raised by the tolerance.
pub open spec fn eligible(
    movers: Seq<InvestigationMover>,
    raised: Seq<Num>,
    mode: InvestigationMode,
    min_contribution: Num,
    min_delta_abs: Num,
    min_slice_rows: u64,
    n: int,
) -> Seq<InvestigationMover>
    decreases n,
{
    if n <= 0 {
        Seq::empty()
    } else {
        let front = eligible(
            movers,
            raised,
            mode,
            min_contribution,
            min_delta_abs,
            min_slice_rows,
            n - 1,
        );
        if meets_thresholds(movers[n - 1], mode, min_contribution, min_slice_rows) && (mode
            == InvestigationMode::ConcentrationDrivers || min_delta_abs.le(raised[n - 1])) {
            front.push(movers[n - 1])
        } else {
            front
        }
    }
}

/// The movers of a step to go into: those that pass the thresholds, the
/// strongest first, at most `branch_limit` but at least one where there is
/// one. `raised` holds each mover's absolute change of the metric, raised by
/// the tolerance of the comparison with `min_delta_abs`.
pub fn select_drill_candidates(
    step: &InvestigationStep,
    mode: InvestigationMode,
    min_contribution: Num,
    min_delta_abs: Num,
    min_slice_rows: u64,
    branch_limit: usize,
    raised: &[Num],
) -> (r: Vec<InvestigationMover>)
    requires
        raised.len() == step.movers.len(),
    ensures
        r@ == ranked_movers(
            eligible(
                step.movers@,
                raised@,
                mode,
                min_contribution,
                min_delta_abs,
                min_slice_rows,
                step.movers@.len() as int,
            ),
            mode,
            branch_limit,
        ),
{
    let mut candidates: Vec<InvestigationMover> = Vec::new();
    let mut i: usize = 0;
    while i < step.movers.len()
        invariant
            i <= step.movers.len(),
            raised.len() == step.movers.len(),
            candidates@ == eligible(
                step.movers@,
                raised@,
                mode,
                min_contribution,
                min_delta_abs,
                min_slice_rows,
                i as int,
            ),
        decreases step.movers.len() - i,
    {
        let m = &step.movers[i];
        if drill_candidate_matches_base_thresholds(m, mode, min_contribution, min_slice_rows) && (
        mode == InvestigationMode::ConcentrationDrivers || min_delta_abs.at_most(raised[i])) {
            candidates.push(copy_mover(m));
        }
        i += 1;
    }
    rank_movers(candidates, mode, branch_limit)
}

/// Every change of a list of movers is a number.
pub open spec fn changes_are_numbers(movers: Seq<InvestigationMover>) -> bool {
    forall|i: int|
        0 <= i < movers.len() ==> !(#[trigger] movers[i]).delta_primary_metric_value.is_nan()
            && !movers[i].delta_share_pp.is_nan()
}

/// The kept movers are those with the largest absolute changes, of the share
/// where concentration is asked for and else of the metric, the largest first;
/// equal ones stand in the order of their names. At least one is kept where
/// there is one.
pub proof fn law_ranked_movers_changed_most(
    movers: Seq<InvestigationMover>,
    mode: InvestigationMode,
    top_movers: usize,
)
    requires
        changes_are_numbers(movers),
    ensures
        order::takes_highest(
            ranked_movers(movers, mode, top_movers),
            movers,
            |m: InvestigationMover|
                if mode == InvestigationMode::ConcentrationDrivers {
                    m.delta_share_pp.abs_spec().rank()
                } else {
                    m.delta_primary_metric_value.abs_spec().rank()
                },
            if top_movers == 0 {
                1
            } else {
                top_movers as int
            },
        ),
        order::falls_by_name(
            ranked_movers(movers, mode, top_movers),
            |m: InvestigationMover|
                if mode == InvestigationMode::ConcentrationDrivers {
                    m.delta_share_pp.abs_spec().rank()
                } else {
                    m.delta_primary_metric_value.abs_spec().rank()
                },
            |m: InvestigationMover| m.segment@,
        ),
{
    let rank = |m: InvestigationMover|
        if mode == InvestigationMode::ConcentrationDrivers {
            m.delta_share_pp.abs_spec().rank()
        } else {
            m.delta_primary_metric_value.abs_spec().rank()
        };
    let name = |m: InvestigationMover| m.segment@;
    let before = stronger(mode);
    assert forall|a: InvestigationMover, b: InvestigationMover|
        movers.contains(a) && movers.contains(b) implies (#[trigger] before(a, b) <==> rank(a)
        > rank(b) || (rank(a) == rank(b) && order::text_less(name(a), name(b)))) by {}
    let n = if top_movers == 0 {
        1
    } else {
        top_movers as int
    };
    order::lemma_sorted_permutation(movers, before);
    order::lemma_takes_highest(movers, before, rank, n);
    order::lemma_falls_by_name(movers, before, rank, name);
    let all = order::sorted(movers, before);
    let kept = ranked_movers(movers, mode, top_movers);
    assert forall|i: int| 0 <= i < kept.len() implies #[trigger] kept[i] == all[i] by {}
}

proof fn lemma_eligible(
    movers: Seq<InvestigationMover>,
    raised: Seq<Num>,
    mode: InvestigationMode,
    min_contribution: Num,
    min_delta_abs: Num,
    min_slice_rows: u64,
    n: int,
)
    requires
        0 <= n <= movers.len(),
    ensures
        ({
            let all = eligible(
                movers,
                raised,
                mode,
                min_contribution,
                min_delta_abs,
                min_slice_rows,
                n,
            );
            &&& forall|k: int|
                0 <= k < all.len() ==> exists|i: int|
                    0 <= i < n && #[trigger] movers[i] == #[trigger] all[k] && passes(
                        movers[i],
                        raised[i],
                        mode,
                        min_contribution,
                        min_delta_abs,
                        min_slice_rows,
                    )
            &&& forall|i: int|
                0 <= i < n && passes(
                    movers[i],
                    raised[i],
                    mode,
                    min_contribution,
                    min_delta_abs,
                    min_slice_rows,
                ) ==> all.contains(#[trigger] movers[i])
        }),
    decreases n,
{
    if n > 0 {
        lemma_eligible(
            movers,
            raised,
            mode,
            min_contribution,
            min_delta_abs,
            min_slice_rows,
            n - 1,
        );
        let front = eligible(
            movers,
            raised,
            mode,
            min_contribution,
            min_delta_abs,
            min_slice_rows,
            n - 1,
        );
        let all = eligible(
            movers,
            raised,
            mode,
            min_contribution,
            min_delta_abs,
            min_slice_rows,
            n,
        );
        assert forall|k: int| 0 <= k < all.len() implies exists|i: int|
            0 <= i < n && #[trigger] movers[i] == #[trigger] all[k] && passes(
                movers[i],
                raised[i],
                mode,
                min_contribution,
                min_delta_abs,
                min_slice_rows,
            ) by {
            if k < front.len() {
                assert(all[k] == front[k]);
            } else {
                assert(movers[n - 1] == all[k]);
            }
        }
        assert forall|i: int|
            0 <= i < n && passes(
                movers[i],
                raised[i],
                mode,
                min_contribution,
                min_delta_abs,
                min_slice_rows,
            ) implies all.contains(#[trigger] movers[i]) by {
            if i < n - 1 {
                let k = choose|k: int| 0 <= k < front.len() && front[k] == movers[i];
                assert(all[k] == movers[i]);
            } else {
                assert(all[all.len() - 1] == movers[i]);
            }
        }
    }
}

/// A named segment with enough records before or after whose change, of the
/// share where concentration is asked for and else of the metric, is large
/// enough. `raised` is its absolute change of the metric, raised by the
/// tolerance.
pub open spec fn passes(
    m: InvestigationMover,
    raised: Num,
    mode: InvestigationMode,
    min_contribution: Num,
    min_delta_abs: Num,
    min_slice_rows: u64,
) -> bool {
    &&& text::trim(m.segment@).len() > 0
    &&& m.segment@ != "(blank)"@
    &&& m.segment@ != "(unknown)"@
    &&& m.base_records >= min_slice_rows || m.new_records >= min_slice_rows
    &&& if mode == InvestigationMode::ConcentrationDrivers {
        min_contribution.le(m.delta_share_pp.abs_spec())
    } else {
        min_contribution.le(m.delta_primary_metric_value.abs_spec()) && min_delta_abs.le(raised)
    }
}

/// The segments that a search goes into are the ones that changed most of all
/// that pass its thresholds, and there is one where any passes.
pub proof fn law_candidates_are_the_strongest(
    movers: Seq<InvestigationMover>,
    raised: Seq<Num>,
    mode: InvestigationMode,
    min_contribution: Num,
    min_delta_abs: Num,
    min_slice_rows: u64,
    branch_limit: usize,
)
    requires
        changes_are_numbers(movers),
    ensures
        ({
            let kept = ranked_movers(
                eligible(
                    movers,
                    raised,
                    mode,
                    min_contribution,
                    min_delta_abs,
                    min_slice_rows,
                    movers.len() as int,
                ),
                mode,
                branch_limit,
            );
            let size = |m: InvestigationMover|
                if mode == InvestigationMode::ConcentrationDrivers {
                    m.delta_share_pp.abs_spec().rank()
                } else {
                    m.delta_primary_metric_value.abs_spec().rank()
                };
            &&& forall|k: int|
                0 <= k < kept.len() ==> exists|i: int|
                    0 <= i < movers.len() && #[trigger] movers[i] == #[trigger] kept[k] && passes(
                        movers[i],
                        raised[i],
                        mode,
                        min_contribution,
                        min_delta_abs,
                        min_slice_rows,
                    )
            &&& forall|i: int|
                0 <= i < movers.len() && passes(
                    #[trigger] movers[i],
                    raised[i],
                    mode,
                    min_contribution,
                    min_delta_abs,
                    min_slice_rows,
                ) ==> kept.len() > 0 && (kept.contains(movers[i]) || (forall|k: int|
                    0 <= k < kept.len() ==> size(movers[i]) <= size(#[trigger] kept[k])))
            &&& forall|i: int, j: int|
                0 <= i < j < kept.len() ==> size(#[trigger] kept[i]) >= size(#[trigger] kept[j])
            &&& kept.len() <= (if branch_limit == 0 {
                1
            } else {
                branch_limit as int
            })
        }),
{
    let all = eligible(
        movers,
        raised,
        mode,
        min_contribution,
        min_delta_abs,
        min_slice_rows,
        movers.len() as int,
    );
    let kept = ranked_movers(all, mode, branch_limit);
    let size = |m: InvestigationMover|
        if mode == InvestigationMode::ConcentrationDrivers {
            m.delta_share_pp.abs_spec().rank()
        } else {
            m.delta_primary_metric_value.abs_spec().rank()
        };
    lemma_eligible(
        movers,
        raised,
        mode,
        min_contribution,
        min_delta_abs,
        min_slice_rows,
        movers.len() as int,
    );
    law_ranked_movers_changed_most(all, mode, branch_limit);
    all.to_multiset_ensures();
    kept.to_multiset_ensures();
    assert forall|k: int| 0 <= k < kept.len() implies exists|i: int|
        0 <= i < movers.len() && #[trigger] movers[i] == #[trigger] kept[k] && passes(
            movers[i],
            raised[i],
            mode,
            min_contribution,
            min_delta_abs,
            min_slice_rows,
        ) by {
        assert(kept.to_multiset().count(kept[k]) > 0);
        assert(all.to_multiset().count(kept[k]) > 0);
        assert(all.contains(kept[k]));
        let e = choose|e: int| 0 <= e < all.len() && all[e] == kept[k];
        assert(all[e] == kept[k]);
    }
    assert forall|i: int|
        0 <= i < movers.len() && passes(
            #[trigger] movers[i],
            raised[i],
            mode,
            min_contribution,
            min_delta_abs,
            min_slice_rows,
        ) implies kept.len() > 0 && (kept.contains(movers[i]) || (forall|k: int|
        0 <= k < kept.len() ==> size(movers[i]) <= size(#[trigger] kept[k]))) by {
        let x = movers[i];
        assert(all.contains(x));
        assert(all.to_multiset().count(x) > 0);
        if !kept.contains(x) {
            assert(kept.to_multiset().count(x) == 0);
            assert(all.to_multiset().sub(kept.to_multiset()).count(x) > 0);
        }
    }
}

/// The strength of a step: that of its first mover, zero where it has none.
pub open spec fn step_score(step: InvestigationStep, mode: InvestigationMode) -> Num {
    if step.movers@.len() > 0 {
        score(step.movers@[0], mode)
    } else {
        Num::zero_spec()
    }
}

/// The strength of a step: that of its first mover.
pub fn top_step_score(step: &InvestigationStep, mode: InvestigationMode) -> (r: Num)
    ensures
        r == step_score(*step, mode),
{
    if step.movers.len() > 0 {
        mover_score(&step.movers[0], mode)
    } else {
        Num::zero()
    }
}

/// The absolute change of the metric in a step's first mover.
pub fn top_step_delta_abs(step: &InvestigationStep) -> (r: Num)
    ensures
        r == (if step.movers@.len() > 0 {
            step.movers@[0].delta_primary_metric_value.abs_spec()
        } else {
            Num::zero_spec()
        }),
{
    if step.movers.len() > 0 {
        step.movers[0].delta_primary_metric_value.abs()
    } else {
        Num::zero()
    }
}

// ---------------------------------------------------------------------------
// Dimensions
// ---------------------------------------------------------------------------

/// The dimensions that a scope binds, in order, and then the step's own.
pub open spec fn dimensions_of(step: InvestigationStep) -> Seq<Seq<char>> {
    Seq::new(step.scope@.len(), |i: int| step.scope@[i].0@).push(step.dimension@)
}

/// The dimensions that a step uses, each once.
pub open spec fn used_dimensions(step: InvestigationStep) -> Seq<Seq<char>> {
    list::distinct_by(dimensions_of(step), |d: Seq<char>| d)
}

/// Whether a list holds a text.
pub fn among(list: &[String], x: &str) -> (r: bool)
    ensures
        r == text::views(list@).contains(x@),
{
    let mut i: usize = 0;
    while i < list.len()
        invariant
            i <= list.len(),
            forall|j: int| 0 <= j < i ==> text::views(list@)[j] != x@,
        decreases list.len() - i,
    {
        if same(list[i].as_str(), x) {
            assert(text::views(list@)[i as int] == x@);
            return true;
        }
        i += 1;
    }
    false
}

/// Adds a text to a list of distinct texts, unless it is there.
pub fn push_distinct(list: &mut Vec<String>, x: &str, Ghost(before): Ghost<Seq<Seq<char>>>)
    requires
        text::views(old(list)@) == list::distinct_by(before, |d: Seq<char>| d),
    ensures
        text::views(final(list)@) == list::distinct_by(before.push(x@), |d: Seq<char>| d),
{
    let ghost front = text::views(list@);
    let ghost key = |d: Seq<char>| d;
    assert(before.push(x@).drop_last() =~= before);
    let found = among(list.as_slice(), x);
    assert(found == exists|i: int| 0 <= i < front.len() && key(#[trigger] front[i]) == key(x@)) by {
        if found {
            let i = choose|i: int| 0 <= i < front.len() && front[i] == x@;
            assert(key(front[i]) == key(x@));
        }
    }
    if !found {
        list.push(x.to_owned());
        assert(text::views(list@) =~= front.push(x@));
    }
}

/// The dimensions that a step uses: those that its scope binds and its own.
pub fn used_dimensions_for_step(step: &InvestigationStep) -> (r: Vec<String>)
    ensures
        text::views(r@) == used_dimensions(*step),
{
    let ghost dims = Seq::new(step.scope@.len(), |i: int| step.scope@[i].0@);
    let mut used: Vec<String> = Vec::new();
    let mut i: usize = 0;
    assert(text::views(used@) =~= list::distinct_by(dims.take(0), |d: Seq<char>| d));
    while i < step.scope.len()
        invariant
            i <= step.scope.len(),
            dims == Seq::new(step.scope@.len(), |i: int| step.scope@[i].0@),
            text::views(used@) == list::distinct_by(dims.take(i as int), |d: Seq<char>| d),
        decreases step.scope.len() - i,
    {
        push_distinct(&mut used, step.scope[i].0.as_str(), Ghost(dims.take(i as int)));
        assert(dims.take(i as int).push(dims[i as int]) =~= dims.take(i + 1));
        i += 1;
    }
    assert(dims.take(dims.len() as int) =~= dims);
    push_distinct(&mut used, step.dimension.as_str(), Ghost(dims));
    used
}

/// Dimensions that are not in use.
pub open spec fn not_used(used: Seq<Seq<char>>) -> spec_fn(Seq<char>) -> bool {
    |d: Seq<char>| !used.contains(d)
}

/// The first dimension that is not in use.
pub fn choose_next_dimension(drill_dimensions: &[String], used_dimensions: &[String]) -> (r: Option<
    String,
>)
    ensures
        planner::optional_text(r) == list::first(
            text::views(drill_dimensions@),
            not_used(text::views(used_dimensions@)),
        ),
{
    let ghost dims = text::views(drill_dimensions@);
    let ghost p = not_used(text::views(used_dimensions@));
    let mut i: usize = 0;
    while i < drill_dimensions.len()
        invariant
            i <= drill_dimensions.len(),
            dims == text::views(drill_dimensions@),
            p == not_used(text::views(used_dimensions@)),
            list::first_from(dims, p, i as int) == list::first_from(dims, p, 0),
        decreases drill_dimensions.len() - i,
    {
        assert(dims[i as int] == drill_dimensions@[i as int]@);
        if !among(used_dimensions, drill_dimensions[i].as_str()) {
            return Some(drill_dimensions[i].clone());
        }
        i += 1;
    }
    None
}

/// The dimensions that are not in use, in order.
pub fn remaining_drill_dimensions(drill_dimensions: &[String], used_dimensions: &[String]) -> (r:
    Vec<String>)
    ensures
        text::views(r@) == list::keep(
            text::views(drill_dimensions@),
            not_used(text::views(used_dimensions@)),
        ),
{
    let ghost dims = text::views(drill_dimensions@);
    let ghost p = not_used(text::views(used_dimensions@));
    let mut out: Vec<String> = Vec::new();
    let mut i: usize = 0;
    assert(text::views(out@) =~= list::keep(dims.take(0), p));
    while i < drill_dimensions.len()
        invariant
            i <= drill_dimensions.len(),
            dims == text::views(drill_dimensions@),
            p == not_used(text::views(used_dimensions@)),
            text::views(out@) == list::keep(dims.take(i as int), p),
        decreases drill_dimensions.len() - i,
    {
        assert(dims.take(i + 1).drop_last() =~= dims.take(i as int));
        assert(dims[i as int] == drill_dimensions@[i as int]@);
        let ghost before = text::views(out@);
        if !among(used_dimensions, drill_dimensions[i].as_str()) {
            out.push(drill_dimensions[i].clone());
            assert(text::views(out@) =~= before.push(dims[i as int]));
        }
        i += 1;
    }
    assert(dims.take(dims.len() as int) =~= dims);
    out
}

/// The top dimension, then the drill dimensions, each once whatever the case
/// of its letters.
pub open spec fn available_dimensions(top: Seq<char>, drill: Seq<Seq<char>>) -> Seq<Seq<char>> {
    list::distinct_by(seq![top] + drill, |d: Seq<char>| text::lower(d))
}

/// The dimensions that an investigation can use.
pub fn investigate_available_dimensions(top_dimension: &str, drill_dimensions: &[String]) -> (r: Vec<
    String,
>)
    ensures
        text::views(r@) == available_dimensions(top_dimension@, text::views(drill_dimensions@)),
{
    let ghost all = seq![top_dimension@] + text::views(drill_dimensions@);
    let ghost key = |d: Seq<char>| text::lower(d);
    let mut out: Vec<String> = Vec::new();
    out.push(top_dimension.to_owned());
    assert(all.take(1).drop_last() =~= all.take(0));
    assert(list::distinct_by(all.take(0), key) =~= Seq::empty());
    assert(all.take(1).last() == top_dimension@);
    assert(text::views(out@) =~= list::distinct_by(all.take(1), key));
    let mut i: usize = 0;
    while i < drill_dimensions.len()
        invariant
            i <= drill_dimensions.len(),
            all == seq![top_dimension@] + text::views(drill_dimensions@),
            key == (|d: Seq<char>| text::lower(d)),
            text::views(out@) == list::distinct_by(all.take(i + 1), key),
        decreases drill_dimensions.len() - i,
    {
        let d = drill_dimensions[i].as_str();
        assert(all[i + 1] == d@);
        assert(all.take(i + 2).drop_last() =~= all.take(i + 1));
        let ghost front = text::views(out@);
        let mut found: bool = false;
        let mut k: usize = 0;
        while k < out.len()
            invariant
                k <= out.len(),
                front == text::views(out@),
                key == (|d: Seq<char>| text::lower(d)),
                found == exists|j: int| 0 <= j < k && key(#[trigger] front[j]) == key(d@),
            decreases out.len() - k,
        {
            assert(front[k as int] == out@[k as int]@);
            if eq_ignore_case(out[k].as_str(), d) {
                assert(key(front[k as int]) == key(d@));
                found = true;
            }
            k += 1;
        }
        if !found {
            out.push(drill_dimensions[i].clone());
            assert(text::views(out@) =~= front.push(d@));
        }
        i += 1;
    }
    assert(all.take(all.len() as int) =~= all);
    out
}

/// No two available dimensions differ only in case, the top dimension is the
/// first of them, and every drill dimension is among them in some spelling.
pub proof fn law_available_dimensions_distinct(top: Seq<char>, drill: Seq<Seq<char>>)
    ensures
        available_dimensions(top, drill).len() > 0,
        available_dimensions(top, drill)[0] == top,
        forall|i: int, j: int|
            0 <= i < j < available_dimensions(top, drill).len() ==> !text::same_ignoring_case(
                #[trigger] available_dimensions(top, drill)[i],
                #[trigger] available_dimensions(top, drill)[j],
            ),
        forall|i: int|
            0 <= i < drill.len() ==> exists|j: int|
                0 <= j < available_dimensions(top, drill).len() && text::same_ignoring_case(
                    #[trigger] available_dimensions(top, drill)[j],
                    #[trigger] drill[i],
                ),
{
    let all = seq![top] + drill;
    let key = |d: Seq<char>| text::lower(d);
    let r = available_dimensions(top, drill);
    list::lemma_distinct_by(all, key);
    lemma_first_stays(all, key);
    assert forall|i: int, j: int| 0 <= i < j < r.len() implies !text::same_ignoring_case(
        #[trigger] r[i],
        #[trigger] r[j],
    ) by {
        assert(key(r[i]) != key(r[j]));
    }
    assert forall|i: int| 0 <= i < drill.len() implies exists|j: int|
        0 <= j < r.len() && text::same_ignoring_case(#[trigger] r[j], #[trigger] drill[i]) by {
        assert(all[i + 1] == drill[i]);
        let j = choose|j: int| 0 <= j < r.len() && key(#[trigger] r[j]) == key(all[i + 1]);
        assert(text::same_ignoring_case(r[j], drill[i]));
    }
}

proof fn lemma_first_stays<T, K>(s: Seq<T>, key: spec_fn(T) -> K)
    requires
        s.len() > 0,
    ensures
        list::distinct_by(s, key).len() > 0,
        list::distinct_by(s, key)[0] == s[0],
    decreases s.len(),
{
    if s.len() == 1 {
        assert(s.drop_last() =~= Seq::empty());
        assert(list::distinct_by(s.drop_last(), key) =~= Seq::empty());
    } else {
        lemma_first_stays(s.drop_last(), key);
    }
}

/// How many changes are reported for the whole data: one per dimension, but
/// at least three and at most ten.
pub fn major_change_limit_for_dimensions(available_dimensions: &[String]) -> (r: usize)
    ensures
        r == (if available_dimensions@.len() < 3 {
            3
        } else if available_dimensions@.len() > 10 {
            10
        } else {
            available_dimensions@.len() as int
        }),
{
    let n: usize = available_dimensions.len();
    if n < 3 {
        3
    } else if n > 10 {
        10
    } else {
        n
    }
}

// ---------------------------------------------------------------------------
// Changes of the whole data
// ---------------------------------------------------------------------------

/// The dimensions along which the whole data is compared, each once whatever
/// the case of its letters.
pub fn major_change_dimensions(available_dimensions: &[String]) -> (r: Vec<String>)
    ensures
        text::views(r@) == list::distinct_by(
            text::views(available_dimensions@),
            |d: Seq<char>| text::lower(d),
        ),
{
    let ghost all = text::views(available_dimensions@);
    let ghost key = |d: Seq<char>| text::lower(d);
    let mut out: Vec<String> = Vec::new();
    let mut i: usize = 0;
    assert(text::views(out@) =~= list::distinct_by(all.take(0), key));
    while i < available_dimensions.len()
        invariant
            i <= available_dimensions.len(),
            all == text::views(available_dimensions@),
            key == (|d: Seq<char>| text::lower(d)),
            text::views(out@) == list::distinct_by(all.take(i as int), key),
        decreases available_dimensions.len() - i,
    {
        let d = available_dimensions[i].as_str();
        assert(all[i as int] == d@);
        assert(all.take(i + 1).drop_last() =~= all.take(i as int));
        let ghost front = text::views(out@);
        let mut found: bool = false;
        let mut k: usize = 0;
        while k < out.len()
            invariant
                k <= out.len(),
                front == text::views(out@),
                key == (|d: Seq<char>| text::lower(d)),
                found == exists|j: int| 0 <= j < k && key(#[trigger] front[j]) == key(d@),
            decreases out.len() - k,
        {
            assert(front[k as int] == out@[k as int]@);
            if eq_ignore_case(out[k].as_str(), d) {
                assert(key(front[k as int]) == key(d@));
                found = true;
            }
            k += 1;
        }
        if !found {
            out.push(available_dimensions[i].clone());
            assert(text::views(out@) =~= front.push(d@));
        }
        i += 1;
    }
    assert(all.take(all.len() as int) =~= all);
    out
}

/// The strongest change of a step: that of its first drillable mover.
pub open spec fn step_change(step: InvestigationStep, mode: InvestigationMode) -> Option<
    InvestigationMajorChange,
> {
    match list::first(step.movers@, planner::drillable_mover()) {
        Some(m) => Some(
            InvestigationMajorChange {
                dimension: step.dimension,
                segment: m.segment,
                primary_metric: step.primary_metric,
                delta_primary_metric_value: m.delta_primary_metric_value,
                delta_share_pp: m.delta_share_pp,
                score: score(m, mode),
            },
        ),
        None => None,
    }
}

/// The strongest changes of the first `n` steps.
pub open spec fn step_changes(steps: Seq<InvestigationStep>, mode: InvestigationMode, n: int) -> Seq<
    InvestigationMajorChange,
>
    decreases n,
{
    if n <= 0 {
        Seq::empty()
    } else {
        match step_change(steps[n - 1], mode) {
            Some(c) => step_changes(steps, mode, n - 1).push(c),
            None => step_changes(steps, mode, n - 1),
        }
    }
}

/// `a` is stronger than `b`, or as strong and before it by dimension and segment.
pub open spec fn is_stronger_change(a: InvestigationMajorChange, b: InvestigationMajorChange) -> bool {
    b.score.lt(a.score) || (!a.score.lt(b.score) && (order::text_less(a.dimension@, b.dimension@)
        || (a.dimension@ == b.dimension@ && order::text_less(a.segment@, b.segment@))))
}

/// Stronger changes come first; equally strong ones by dimension and segment.
pub open spec fn stronger_change() -> spec_fn(
    InvestigationMajorChange,
    InvestigationMajorChange,
) -> bool {
    |a: InvestigationMajorChange, b: InvestigationMajorChange| is_stronger_change(a, b)
}

fn precedes_change(a: &InvestigationMajorChange, b: &InvestigationMajorChange) -> (r: bool)
    ensures
        r == is_stronger_change(*a, *b),
{
    b.score.less(a.score) || (!a.score.less(b.score) && (text_before(
        a.dimension.as_str(),
        b.dimension.as_str(),
    ) || (same(a.dimension.as_str(), b.dimension.as_str()) && text_before(
        a.segment.as_str(),
        b.segment.as_str(),
    ))))
}

/// The strongest changes of the whole data: of each step's first drillable
/// mover, the strongest first, at most `limit` but at least one where there is one.
pub fn identify_major_global_changes(
    steps: &[InvestigationStep],
    mode: InvestigationMode,
    limit: usize,
) -> (r: Vec<InvestigationMajorChange>)
    ensures
        r@ == answers::at_most(
            order::sorted(step_changes(steps@, mode, steps@.len() as int), stronger_change()),
            answers::bullet_limit(limit),
        ),
{
    let mut changes: Vec<InvestigationMajorChange> = Vec::new();
    let mut i: usize = 0;
    while i < steps.len()
        invariant
            i <= steps.len(),
            changes@ == step_changes(steps@, mode, i as int),
        decreases steps.len() - i,
    {
        let step = &steps[i];
        match first_drillable(&step.movers) {
            Some(k) => {
                let m = &step.movers[k];
                changes.push(
                    InvestigationMajorChange {
                        dimension: step.dimension.clone(),
                        segment: m.segment.clone(),
                        primary_metric: step.primary_metric.clone(),
                        delta_primary_metric_value: m.delta_primary_metric_value,
                        delta_share_pp: m.delta_share_pp,
                        score: mover_score(m, mode),
                    },
                );
            },
            None => {},
        }
        i += 1;
    }
    let precedes = |a: &InvestigationMajorChange, b: &InvestigationMajorChange| -> (x: bool)
        ensures
            x == is_stronger_change(*a, *b),
        { precedes_change(a, b) };
    let mut out = sort_by(changes, precedes, Ghost(stronger_change()));
    let n: usize = if limit < 1 {
        1
    } else {
        limit
    };
    out.truncate(n);
    out
}

// ---------------------------------------------------------------------------
// Going on without a planner
// ---------------------------------------------------------------------------

/// Segments of a single dimension that have a name.
pub open spec fn single_segment() -> spec_fn(InvestigationMover) -> bool {
    |m: InvestigationMover| !scan::contains(m.segment@, " | "@) && m.segment@ != "(blank)"@
}

/// The action that follows without a planner. `candidates` are the movers of
/// the last step to go into, at most one.
pub open spec fn fallback_action(
    kind: InvestigateInputKind,
    top_dimension: Seq<char>,
    drill_dimensions: Seq<Seq<char>>,
    steps: Seq<InvestigationStep>,
    candidates: Seq<InvestigationMover>,
) -> planner::ActionView {
    if steps.len() == 0 {
        planner::ActionView::AnalyzeCompare {
            group_by: top_dimension,
            scope: Seq::empty(),
            reason: "fallback to top-level compare"@,
        }
    } else if kind == InvestigateInputKind::JsonArtifacts {
        planner::ActionView::Stop {
            reason: "fallback stop: JSON artifact mode cannot drill down"@,
        }
    } else {
        let last = steps.last();
        match list::first(drill_dimensions, not_used(used_dimensions(last))) {
            None => planner::ActionView::Stop {
                reason: "fallback stop: no remaining drill dimension"@,
            },
            Some(next) => match list::first(candidates, single_segment()) {
                None => planner::ActionView::Stop {
                    reason: "fallback stop: no eligible drill candidate"@,
                },
                Some(m) => planner::ActionView::DrillDown {
                    group_by: next,
                    scope: scope::bindings(last.scope@).push((last.dimension@, m.segment@)),
                    reason: "fallback drill on "@ + last.dimension@ + "='"@ + m.segment@ + "'"@,
                },
            },
        }
    }
}

/// The candidates of the last step that the fallback considers.
pub open spec fn fallback_candidates(
    args: InvestigateWorkflowArgs,
    mode: InvestigationMode,
    steps: Seq<InvestigationStep>,
    raised: Seq<Num>,
) -> Seq<InvestigationMover> {
    if steps.len() == 0 {
        Seq::empty()
    } else {
        ranked_movers(
            eligible(
                steps.last().movers@,
                raised,
                mode,
                args.min_contribution,
                args.min_delta_abs,
                args.min_slice_rows,
                steps.last().movers@.len() as int,
            ),
            mode,
            1,
        )
    }
}

/// The action that follows without a planner: first a comparison of the whole
/// data, then a descent into the strongest eligible segment along the first
/// dimension not in use, else a stop. `raised` holds the absolute changes of
/// the last step's movers, raised by the tolerance.
pub fn deterministic_fallback_action(
    args: &InvestigateWorkflowArgs,
    mode: InvestigationMode,
    input_kind: InvestigateInputKind,
    top_dimension: &str,
    drill_dimensions: &[String],
    steps: &[InvestigationStep],
    raised: &[Num],
) -> (r: InvestigationExecAction)
    requires
        steps.len() > 0 ==> raised.len() == steps@.last().movers.len(),
    ensures
        r@ == fallback_action(
            input_kind,
            top_dimension@,
            text::views(drill_dimensions@),
            steps@,
            fallback_candidates(*args, mode, steps@, raised@),
        ),
{
    if steps.len() == 0 {
        let none: Vec<(String, String)> = Vec::new();
        assert(scope::bindings(none@) =~= Seq::empty());
        return InvestigationExecAction::AnalyzeCompare {
            group_by: top_dimension.to_owned(),
            scope: none,
            reason: "fallback to top-level compare".to_owned(),
        };
    }
    if input_kind == InvestigateInputKind::JsonArtifacts {
        return InvestigationExecAction::Stop {
            reason: "fallback stop: JSON artifact mode cannot drill down".to_owned(),
        };
    }
    let last = &steps[steps.len() - 1];
    let used = used_dimensions_for_step(last);
    let next = match choose_next_dimension(drill_dimensions, used.as_slice()) {
        Some(d) => d,
        None => {
            return InvestigationExecAction::Stop {
                reason: "fallback stop: no remaining drill dimension".to_owned(),
            };
        },
    };
    let candidates = select_drill_candidates(
        last,
        mode,
        args.min_contribution,
        args.min_delta_abs,
        args.min_slice_rows,
        1,
        raised,
    );
    let ghost p = single_segment();
    let mut i: usize = 0;
    while i < candidates.len()
        invariant
            i <= candidates.len(),
            p == single_segment(),
            list::first_from(candidates@, p, i as int) == list::first_from(candidates@, p, 0),
            steps.len() > 0,
            *last == steps@.last(),
            input_kind != InvestigateInputKind::JsonArtifacts,
            candidates@ == fallback_candidates(*args, mode, steps@, raised@),
            list::first(
                text::views(drill_dimensions@),
                not_used(used_dimensions(*last)),
            ) == Some(next@),
        decreases candidates.len() - i,
    {
        let m = &candidates[i];
        if !mentions(m.segment.as_str(), " | ") && !same(m.segment.as_str(), "(blank)") {
            let mut scope = copy_scope(last.scope.as_slice());
            let ghost before = scope::bindings(scope@);
            scope.push((last.dimension.clone(), m.segment.clone()));
            assert(scope::bindings(scope@) =~= before.push((last.dimension@, m.segment@)));
            let reason = cat5(
                "fallback drill on ",
                last.dimension.as_str(),
                "='",
                m.segment.as_str(),
                "'",
            );
            return InvestigationExecAction::DrillDown { group_by: next, scope, reason };
        }
        i += 1;
    }
    InvestigationExecAction::Stop {
        reason: "fallback stop: no eligible drill candidate".to_owned(),
    }
}

/// A step scores as high as its strongest mover changed: no mover of the
/// comparison that it was made of changed more.
pub proof fn law_steps_score_their_largest_change(
    step: InvestigationStep,
    movers: Seq<InvestigationMover>,
    mode: InvestigationMode,
    top_movers: usize,
    i: int,
)
    requires
        changes_are_numbers(movers),
        step.movers@ == ranked_movers(movers, mode, top_movers),
        0 <= i < movers.len(),
    ensures
        !step_score(step, mode).lt(
            if mode == InvestigationMode::ConcentrationDrivers {
                movers[i].delta_share_pp.abs_spec()
            } else {
                movers[i].delta_primary_metric_value.abs_spec()
            },
        ),
{
    let kept = ranked_movers(movers, mode, top_movers);
    let rank = |m: InvestigationMover|
        if mode == InvestigationMode::ConcentrationDrivers {
            m.delta_share_pp.abs_spec().rank()
        } else {
            m.delta_primary_metric_value.abs_spec().rank()
        };
    law_ranked_movers_changed_most(movers, mode, top_movers);
    movers.to_multiset_ensures();
    kept.to_multiset_ensures();
    assert(kept.len() > 0);
    let x = movers[i];
    assert(movers.to_multiset().count(x) > 0);
    if kept.contains(x) {
        let k = choose|k: int| 0 <= k < kept.len() && kept[k] == x;
        assert(rank(kept[0]) >= rank(kept[k]));
    } else {
        assert(kept.to_multiset().count(x) == 0);
        assert(movers.to_multiset().sub(kept.to_multiset()).count(x) > 0);
        assert(rank(x) <= rank(kept[0]));
    }
}

proof fn lemma_step_changes(steps: Seq<InvestigationStep>, mode: InvestigationMode, n: int)
    requires
        0 <= n <= steps.len(),
    ensures
        forall|k: int|
            0 <= k < step_changes(steps, mode, n).len() ==> tells_some_step(
                #[trigger] step_changes(steps, mode, n)[k],
                steps,
                mode,
            ),
        forall|i: int|
            0 <= i < n && list::first(
                (#[trigger] steps[i]).movers@,
                planner::drillable_mover(),
            ) is Some ==> exists|k: int|
                0 <= k < step_changes(steps, mode, n).len() && tells_step(
                    #[trigger] step_changes(steps, mode, n)[k],
                    steps[i],
                    mode,
                ),
    decreases n,
{
    if n > 0 {
        lemma_step_changes(steps, mode, n - 1);
        let front = step_changes(steps, mode, n - 1);
        let all = step_changes(steps, mode, n);
        list::lemma_first_from(steps[n - 1].movers@, planner::drillable_mover(), 0);
        assert forall|k: int| 0 <= k < all.len() implies tells_some_step(
            #[trigger] all[k],
            steps,
            mode,
        ) by {
            if k < front.len() {
                assert(all[k] == front[k]);
            } else {
                assert(tells_step(all[k], steps[n - 1], mode));
            }
        }
        assert forall|i: int|
            0 <= i < n && list::first(
                (#[trigger] steps[i]).movers@,
                planner::drillable_mover(),
            ) is Some implies exists|k: int|
            0 <= k < all.len() && tells_step(#[trigger] all[k], steps[i], mode) by {
            if i < n - 1 {
                let k = choose|k: int|
                    0 <= k < front.len() && tells_step(#[trigger] front[k], steps[i], mode);
                assert(all[k] == front[k]);
            } else {
                assert(tells_step(all[all.len() - 1], steps[i], mode));
            }
        }
    }
}

/// A change tells the first named segment among a step's movers, with its own
/// changes.
pub open spec fn tells_step(
    c: InvestigationMajorChange,
    step: InvestigationStep,
    mode: InvestigationMode,
) -> bool {
    exists|m: int|
        0 <= m < step.movers@.len() && planner::drillable((#[trigger] step.movers@[m]).segment@)
            && (forall|j: int|
            0 <= j < m ==> !planner::drillable((#[trigger] step.movers@[j]).segment@))
            && c.dimension == step.dimension && c.segment == step.movers@[m].segment
            && c.primary_metric == step.primary_metric && c.delta_primary_metric_value
            == step.movers@[m].delta_primary_metric_value && c.delta_share_pp
            == step.movers@[m].delta_share_pp && c.score == (if mode
            == InvestigationMode::ConcentrationDrivers {
            c.delta_share_pp.abs_spec()
        } else {
            c.delta_primary_metric_value.abs_spec()
        })
}

pub open spec fn tells_some_step(
    c: InvestigationMajorChange,
    steps: Seq<InvestigationStep>,
    mode: InvestigationMode,
) -> bool {
    exists|i: int| 0 <= i < steps.len() && tells_step(c, #[trigger] steps[i], mode)
}

/// The major changes are those of the steps' first named segments, the largest
/// first: none that is left out is larger than one that is kept.
pub proof fn law_major_changes_are_the_largest(
    steps: Seq<InvestigationStep>,
    mode: InvestigationMode,
    limit: usize,
)
    requires
        forall|i: int|
            0 <= i < steps.len() ==> changes_are_numbers((#[trigger] steps[i]).movers@),
    ensures
        ({
            let all = step_changes(steps, mode, steps.len() as int);
            let kept = answers::at_most(
                order::sorted(all, stronger_change()),
                answers::bullet_limit(limit),
            );
            &&& order::takes_highest(
                kept,
                all,
                |c: InvestigationMajorChange|
                    if mode == InvestigationMode::ConcentrationDrivers {
                        c.delta_share_pp.abs_spec().rank()
                    } else {
                        c.delta_primary_metric_value.abs_spec().rank()
                    },
                if limit == 0 {
                    1
                } else {
                    limit as int
                },
            )
            &&& forall|k: int|
                0 <= k < all.len() ==> tells_some_step(#[trigger] all[k], steps, mode)
        }),
{
    let all = step_changes(steps, mode, steps.len() as int);
    let rank = |c: InvestigationMajorChange|
        if mode == InvestigationMode::ConcentrationDrivers {
            c.delta_share_pp.abs_spec().rank()
        } else {
            c.delta_primary_metric_value.abs_spec().rank()
        };
    let before = stronger_change();
    let n = if limit == 0 {
        1
    } else {
        limit as int
    };
    lemma_step_changes(steps, mode, steps.len() as int);
    assert forall|c: InvestigationMajorChange| #[trigger] all.contains(c) implies !c.score.is_nan()
        && c.score.rank() == rank(c) by {
        let k = choose|k: int| 0 <= k < all.len() && all[k] == c;
        assert(tells_some_step(all[k], steps, mode));
        let i = choose|i: int| 0 <= i < steps.len() && tells_step(c, #[trigger] steps[i], mode);
        assert(changes_are_numbers(steps[i].movers@));
    }
    assert forall|a: InvestigationMajorChange, b: InvestigationMajorChange|
        all.contains(a) && all.contains(b) implies (#[trigger] before(a, b) ==> rank(a) >= rank(b))
        && (rank(a) > rank(b) ==> before(a, b)) by {}
    order::lemma_sorted_permutation(all, before);
    order::lemma_takes_highest(all, before, rank, n);
}

/// Without a planner the search begins with everything along the top dimension.
/// After that it goes into a candidate of the last step that stands for a single
/// named segment, along a dimension that is not used yet, and stops where there
/// is no such candidate or dimension or nothing to go into.
pub proof fn law_fallbacks_descend_from_the_last_step(
    kind: InvestigateInputKind,
    top_dimension: Seq<char>,
    drill_dimensions: Seq<Seq<char>>,
    steps: Seq<InvestigationStep>,
    candidates: Seq<InvestigationMover>,
)
    ensures
        match fallback_action(kind, top_dimension, drill_dimensions, steps, candidates) {
            planner::ActionView::AnalyzeCompare { group_by, scope, .. } => steps.len() == 0
                && group_by == top_dimension && scope.len() == 0,
            planner::ActionView::DrillDown { group_by, scope, .. } => {
                &&& steps.len() > 0 && kind == InvestigateInputKind::CsvDatasets
                &&& drill_dimensions.contains(group_by) && !used_dimensions(
                    steps.last(),
                ).contains(group_by)
                &&& goes_into_candidate(scope, steps.last(), candidates)
            },
            planner::ActionView::Stop { .. } => steps.len() > 0 && (kind
                == InvestigateInputKind::JsonArtifacts || (forall|i: int|
                0 <= i < drill_dimensions.len() ==> used_dimensions(steps.last()).contains(
                    #[trigger] drill_dimensions[i],
                )) || (forall|i: int|
                0 <= i < candidates.len() ==> scan::contains(
                    (#[trigger] candidates[i]).segment@,
                    " | "@,
                ) || candidates[i].segment@ == "(blank)"@)),
        },
{
    if steps.len() > 0 {
        let free = not_used(used_dimensions(steps.last()));
        list::lemma_first_from(drill_dimensions, free, 0);
        list::lemma_first_from(candidates, single_segment(), 0);
        match list::first_from(drill_dimensions, free, 0) {
            Some(i) => {
                assert(free(drill_dimensions[i]));
            },
            None => {
                assert forall|i: int| 0 <= i < drill_dimensions.len() implies used_dimensions(
                    steps.last(),
                ).contains(#[trigger] drill_dimensions[i]) by {
                    assert(!free(drill_dimensions[i]));
                }
            },
        }
        match list::first_from(candidates, single_segment(), 0) {
            Some(i) => {
                assert(single_segment()(candidates[i]));
                assert(scope::bindings(steps.last().scope@).push(
                    (steps.last().dimension@, candidates[i].segment@),
                ).drop_last() =~= scope::bindings(steps.last().scope@));
            },
            None => {
                assert forall|i: int| 0 <= i < candidates.len() implies scan::contains(
                    (#[trigger] candidates[i]).segment@,
                    " | "@,
                ) || candidates[i].segment@ == "(blank)"@ by {
                    assert(!single_segment()(candidates[i]));
                }
            },
        }
    }
}

/// A scope narrows that of a step to a candidate along the step's dimension.
pub open spec fn goes_into_candidate(
    scope: Seq<(Seq<char>, Seq<char>)>,
    step: InvestigationStep,
    candidates: Seq<InvestigationMover>,
) -> bool {
    &&& scope.len() > 0 && scope.drop_last() == scope::bindings(step.scope@)
    &&& exists|i: int|
        0 <= i < candidates.len() && scope.last() == (
            step.dimension@,
            (#[trigger] candidates[i]).segment@,
        ) && !scan::contains(candidates[i].segment@, " | "@) && candidates[i].segment@
            != "(blank)"@
}

/// A question about concentration is answered by what drives it, whatever else it
/// asks; one that asks what to inspect next by a recommendation; one about a
/// comparison or the biggest change by comparing; and any other by what changed.
pub proof fn law_questions_choose_the_mode(q: Seq<char>)
    ensures
        scan::contains(q, "concentration"@) || scan::contains(q, "concentrated"@) <==> routed_mode(
            q,
        ) == InvestigationMode::ConcentrationDrivers,
        !scan::contains(q, "concentration"@) && !scan::contains(q, "concentrated"@)
            && scan::contains(q, "inspect next"@) ==> routed_mode(q)
            == InvestigationMode::RecommendNext,
        routed_mode(q) == InvestigationMode::CompareSnapshots ==> scan::contains(q, "compare"@)
            || scan::contains(q, "biggest shift"@) || scan::contains(q, "biggest change"@)
            || scan::contains(q, "largest change"@),
        routed_mode(q) == InvestigationMode::ChangeDrivers ==> !scan::contains(q, "compare"@)
            && !scan::contains(q, "what next"@),
{
}

} // verus!
