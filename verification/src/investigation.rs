//! The records of an investigation.

use vstd::prelude::*;

use crate::num::Num;

verus! {

/// One segment of a comparison, with its figures before and after.
#[derive(Clone, Debug)]
pub struct InvestigationMover {
    pub segment: String,
    pub base_records: u64,
    pub new_records: u64,
    pub base_share_pct: Num,
    pub new_share_pct: Num,
    pub delta_share_pp: Num,
    pub base_primary_metric_value: Num,
    pub new_primary_metric_value: Num,
    pub delta_primary_metric_value: Num,
}

/// One comparison: by which dimension, within which scope, and what moved.
#[derive(Clone, Debug)]
pub struct InvestigationStep {
    pub depth: usize,
    pub dimension: String,
    pub scope: Vec<(String, String)>,
    pub primary_metric: String,
    pub base_records: u64,
    pub new_records: u64,
    pub segment_count: usize,
    pub top5_concentration_base_pct: Num,
    pub top5_concentration_new_pct: Num,
    pub top5_concentration_delta_pp: Num,
    pub top1_concentration_base_pct: Num,
    pub top1_concentration_new_pct: Num,
    pub top1_concentration_delta_pp: Num,
    pub movers: Vec<InvestigationMover>,
}

/// One entry of the decision log.
#[derive(Clone, Debug)]
pub struct InvestigationTraceStep {
    pub depth: usize,
    pub action: String,
    pub decision: String,
    pub scope: Vec<(String, String)>,
    pub stopping_reason: Option<String>,
}

/// The strongest change along one dimension of the whole data.
#[derive(Clone, Debug)]
pub struct InvestigationMajorChange {
    pub dimension: String,
    pub segment: String,
    pub primary_metric: String,
    pub delta_primary_metric_value: Num,
    pub delta_share_pp: Num,
    pub score: Num,
}

/// A copy of a mover.
pub fn copy_mover(m: &InvestigationMover) -> (r: InvestigationMover)
    ensures
        r == *m,
{
    InvestigationMover {
        segment: m.segment.clone(),
        base_records: m.base_records,
        new_records: m.new_records,
        base_share_pct: m.base_share_pct,
        new_share_pct: m.new_share_pct,
        delta_share_pp: m.delta_share_pp,
        base_primary_metric_value: m.base_primary_metric_value,
        new_primary_metric_value: m.new_primary_metric_value,
        delta_primary_metric_value: m.delta_primary_metric_value,
    }
}

} // verus!
