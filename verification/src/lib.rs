//! Attribution and investigation logic for tabular metrics.

use vstd::prelude::*;

pub mod aggregates;
pub mod alerts;
pub mod analysis;
pub mod answers;
pub mod args;
pub mod artifacts;
pub mod attribution;
pub mod branches;
pub mod brief;
pub mod columns;
pub mod comparison;
pub mod config;
pub mod coverage;
pub mod dates;
pub mod decomposition;
pub mod digits;
pub mod dimensions;
pub mod drill;
pub mod drivers;
pub mod evidence;
pub mod explaining;
pub mod factors;
pub mod findings;
pub mod frames;
pub mod groups;
pub mod investigation;
pub mod json;
pub mod list;
pub mod llm;
pub mod market;
pub mod messages;
pub mod metric;
pub mod model_report;
pub mod num;
pub mod numeric;
pub mod order;
pub mod paths;
pub mod periods;
pub mod plan;
pub mod planned;
pub mod planner;
pub mod proposals;
pub mod report;
pub mod scan;
pub mod scope;
pub mod segments;
pub mod sources;
pub mod subjects;
pub mod suggest;
pub mod table;
pub mod text;
pub mod turns;
pub mod validation;
pub mod webpage;
pub mod workflow;

verus! {

} // verus!
