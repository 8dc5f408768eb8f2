//! How much of a total change the strongest movers account for.

use vstd::prelude::*;

use crate::config::EPSILON;
use crate::investigation::InvestigationStep;
use crate::num::Num;
use crate::scope;
use crate::scope::copy_scope;

verus! {

/// A step with what its strongest mover accounts for.
#[derive(Clone, Debug)]
pub struct InvestigationCoverageStep {
    pub step_index: usize,
    pub depth: usize,
    pub scope: Vec<(String, String)>,
    pub dimension: String,
    pub strongest_segment: String,
    pub strongest_delta_primary_metric_value: Num,
    pub strongest_delta_share_pp: Num,
    pub strongest_explained_pct_of_total_delta: Num,
    pub residual_delta_abs_after_step: Num,
}

/// A coverage step in views.
pub struct CoverageStepView {
    pub step_index: int,
    pub depth: int,
    pub scope: Seq<(Seq<char>, Seq<char>)>,
    pub dimension: Seq<char>,
    pub strongest_segment: Seq<char>,
    pub value: Num,
    pub share: Num,
    pub explained: Num,
    pub residual: Num,
}

impl View for InvestigationCoverageStep {
    type V = CoverageStepView;

    open spec fn view(&self) -> CoverageStepView {
        CoverageStepView {
            step_index: self.step_index as int,
            depth: self.depth as int,
            scope: scope::bindings(self.scope@),
            dimension: self.dimension@,
            strongest_segment: self.strongest_segment@,
            value: self.strongest_delta_primary_metric_value,
            share: self.strongest_delta_share_pp,
            explained: self.strongest_explained_pct_of_total_delta,
            residual: self.residual_delta_abs_after_step,
        }
    }
}

pub open spec fn coverage_views(s: Seq<InvestigationCoverageStep>) -> Seq<CoverageStepView> {
    Seq::new(s.len(), |i: int| s[i]@)
}

/// The coverage of an investigation.
#[derive(Clone, Debug)]
pub struct InvestigationCoverage {
    pub total_delta_abs: Num,
    pub top_level_total_delta: Num,
    pub top_level_strongest_segment: Option<String>,
    pub top_level_strongest_delta_abs: Num,
    pub top_level_strongest_explained_pct: Num,
    pub step_coverage: Vec<InvestigationCoverageStep>,
}

/// What a strongest mover accounts for: its part of the total in percent, and
/// what the total leaves without it.
#[derive(Clone, Copy, Debug)]
pub struct CoverageFigures {
    pub explained_pct: Num,
    pub remaining: Num,
}

/// The part in percent; none of a total that is nearly zero.
pub open spec fn explained(total: Num, f: CoverageFigures) -> Num {
    if total.le(Num { bits: EPSILON }) {
        Num::zero_spec()
    } else {
        f.explained_pct
    }
}

/// What is left of the total; nothing where the mover is at least as large.
pub open spec fn residual(total: Num, strongest: Num, f: CoverageFigures) -> Num {
    if total.le(strongest) {
        Num::zero_spec()
    } else {
        f.remaining
    }
}

fn explained_part(total: Num, f: CoverageFigures) -> (r: Num)
    ensures
        r == explained(total, f),
{
    if total.at_most(Num { bits: EPSILON }) {
        Num::zero()
    } else {
        f.explained_pct
    }
}

/// The coverage of one step that has a mover.
pub open spec fn covered(
    step: InvestigationStep,
    index: int,
    total: Num,
    f: CoverageFigures,
) -> CoverageStepView {
    let top = step.movers@[0];
    CoverageStepView {
        step_index: index,
        depth: step.depth as int,
        scope: scope::bindings(step.scope@),
        dimension: step.dimension@,
        strongest_segment: top.segment@,
        value: top.delta_primary_metric_value,
        share: top.delta_share_pp,
        explained: explained(total, f),
        residual: residual(total, top.delta_primary_metric_value.abs_spec(), f),
    }
}

/// The coverage of the first `n` steps; a step without movers is passed over.
pub open spec fn covered_steps(
    steps: Seq<InvestigationStep>,
    total: Num,
    figures: Seq<CoverageFigures>,
    n: int,
) -> Seq<CoverageStepView>
    decreases n,
{
    if n <= 0 {
        Seq::empty()
    } else {
        let rest = covered_steps(steps, total, figures, n - 1);
        if steps[n - 1].movers@.len() == 0 {
            rest
        } else {
            rest.push(covered(steps[n - 1], n - 1, total, figures[n - 1]))
        }
    }
}

/// The strongest segment of the first step, where it has a name.
pub open spec fn strongest_name(steps: Seq<InvestigationStep>) -> Option<Seq<char>> {
    if steps.len() == 0 || steps[0].movers@.len() == 0 || steps[0].movers@[0].segment@.len()
        == 0 {
        None
    } else {
        Some(steps[0].movers@[0].segment@)
    }
}

/// Puts the coverage of an investigation together. `top_level` holds the part
/// of the first step's strongest mover, `figures` those of all steps.
#[verifier::loop_isolation(false)]
pub fn build_investigation_coverage(
    steps: &Vec<InvestigationStep>,
    top_level_total_delta: Num,
    top_level: CoverageFigures,
    figures: &Vec<CoverageFigures>,
) -> (r: InvestigationCoverage)
    requires
        figures.len() == steps.len(),
    ensures
        ({
            let total = top_level_total_delta.abs_spec();
            &&& r.total_delta_abs == total
            &&& r.top_level_total_delta == top_level_total_delta
            &&& match r.top_level_strongest_segment {
                Some(s) => strongest_name(steps@) == Some(s@),
                None => strongest_name(steps@) is None,
            }
            &&& r.top_level_strongest_delta_abs == (if steps@.len() == 0
                || steps@[0].movers@.len() == 0 {
                Num::zero_spec()
            } else {
                steps@[0].movers@[0].delta_primary_metric_value.abs_spec()
            })
            &&& r.top_level_strongest_explained_pct == explained(total, top_level)
            &&& coverage_views(r.step_coverage@) == covered_steps(
                steps@,
                total,
                figures@,
                steps@.len() as int,
            )
        }),
{
    let total = top_level_total_delta.abs();
    let mut name: Option<String> = None;
    let mut strongest = Num::zero();
    if steps.len() > 0 && steps[0].movers.len() > 0 {
        let top = &steps[0].movers[0];
        strongest = top.delta_primary_metric_value.abs();
        if crate::scan::length(top.segment.as_str()) > 0 {
            name = Some(top.segment.clone());
        }
    }
    let mut out: Vec<InvestigationCoverageStep> = Vec::new();
    let mut i: usize = 0;
    assert(coverage_views(out@) =~= Seq::empty());
    while i < steps.len()
        invariant
            i <= steps.len(),
            coverage_views(out@) == covered_steps(steps@, total, figures@, i as int),
        decreases steps.len() - i,
    {
        let step = &steps[i];
        if step.movers.len() > 0 {
            let top = &step.movers[0];
            let size = top.delta_primary_metric_value.abs();
            let left = if total.at_most(size) {
                Num::zero()
            } else {
                figures[i].remaining
            };
            let item = InvestigationCoverageStep {
                step_index: i,
                depth: step.depth,
                scope: copy_scope(step.scope.as_slice()),
                dimension: step.dimension.clone(),
                strongest_segment: top.segment.clone(),
                strongest_delta_primary_metric_value: top.delta_primary_metric_value,
                strongest_delta_share_pp: top.delta_share_pp,
                strongest_explained_pct_of_total_delta: explained_part(total, figures[i]),
                residual_delta_abs_after_step: left,
            };
            let ghost before = coverage_views(out@);
            let ghost view = item@;
            assert(view == covered(steps@[i as int], i as int, total, figures@[i as int]));
            out.push(item);
            assert(coverage_views(out@) =~= before.push(view));
        }
        i += 1;
    }
    InvestigationCoverage {
        total_delta_abs: total,
        top_level_total_delta,
        top_level_strongest_segment: name,
        top_level_strongest_delta_abs: strongest,
        top_level_strongest_explained_pct: explained_part(total, top_level),
        step_coverage: out,
    }
}

/// A coverage is told of every step that has a mover, in order: of its own place,
/// scope and dimension, and of its first mover's segment and changes. What is
/// left after it is nothing where that change reaches the total.
pub proof fn law_coverage_tells_each_step(
    steps: Seq<InvestigationStep>,
    total: Num,
    figures: Seq<CoverageFigures>,
    n: int,
)
    requires
        0 <= n <= steps.len(),
    ensures
        forall|k: int|
            0 <= k < covered_steps(steps, total, figures, n).len() ==> ({
                let c = #[trigger] covered_steps(steps, total, figures, n)[k];
                let step = steps[c.step_index];
                &&& 0 <= c.step_index < n
                &&& step.movers@.len() > 0
                &&& c.depth == step.depth && c.dimension == step.dimension@ && c.scope
                    == scope::bindings(step.scope@)
                &&& c.strongest_segment == step.movers@[0].segment@
                &&& c.value == step.movers@[0].delta_primary_metric_value
                &&& c.share == step.movers@[0].delta_share_pp
                &&& total.le(step.movers@[0].delta_primary_metric_value.abs_spec())
                    ==> c.residual == (Num { bits: 0 })
                &&& !total.le(step.movers@[0].delta_primary_metric_value.abs_spec())
                    ==> c.residual == figures[c.step_index].remaining
            }),
        forall|i: int, j: int|
            0 <= i < j < covered_steps(steps, total, figures, n).len() ==> (
            #[trigger] covered_steps(steps, total, figures, n)[i]).step_index < (
            #[trigger] covered_steps(steps, total, figures, n)[j]).step_index,
        forall|i: int|
            0 <= i < n && (#[trigger] steps[i]).movers@.len() > 0 ==> covers(
                covered_steps(steps, total, figures, n),
                i,
            ),
    decreases n,
{
    if n > 0 {
        law_coverage_tells_each_step(steps, total, figures, n - 1);
        let front = covered_steps(steps, total, figures, n - 1);
        let all = covered_steps(steps, total, figures, n);
        assert forall|i: int| 0 <= i < n && (#[trigger] steps[i]).movers@.len() > 0 implies covers(
            all,
            i,
        ) by {
            if i < n - 1 {
                assert(covers(front, i));
                let k = choose|k: int| 0 <= k < front.len() && (#[trigger] front[k]).step_index == i;
                assert(all[k] == front[k]);
            } else {
                assert(all[all.len() - 1].step_index == i);
            }
        }
        assert forall|k: int| 0 <= k < front.len() implies #[trigger] all[k] == front[k] by {}
    }
}

/// A step is among those that are covered.
pub open spec fn covers(all: Seq<CoverageStepView>, step: int) -> bool {
    exists|k: int| 0 <= k < all.len() && (#[trigger] all[k]).step_index == step
}

} // verus!
