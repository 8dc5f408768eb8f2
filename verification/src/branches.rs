//! How the steps of an investigation hang together, which branches went
//! deepest, and what to ask next.

use vstd::prelude::*;

use crate::args::InvestigationMode;
use crate::digits;
use crate::digits::{count_text, signed_fmt_num};
use crate::drill;
use crate::drill::{mover_score, top_step_score};
use crate::investigation::{InvestigationMover, InvestigationStep};
use crate::list;
use crate::num::Num;
use crate::order;
use crate::order::{sort_by, text_before};
use crate::planner;
use crate::report;
use crate::report::{say, write_page};
use crate::scan;
use crate::scan::replaced_char;
use crate::scope;
use crate::scope::{copy_scope, format_scope, investigation_scope_key, scope_starts_with};
use crate::text;
use crate::text::{cat3, cat5, same};

verus! {

// ---------------------------------------------------------------------------
// Graph
// ---------------------------------------------------------------------------

/// A step as a node of the graph.
#[derive(Debug)]
pub struct InvestigationBranchNode {
    pub id: String,
    pub step_index: usize,
    pub depth: usize,
    pub scope: Vec<(String, String)>,
    pub dimension: String,
    pub primary_metric: String,
    pub strongest_segment: Option<String>,
    pub strongest_delta_primary_metric_value: Num,
    pub strongest_delta_share_pp: Num,
    pub score: Num,
}

/// A node in views.
pub struct NodeView {
    pub id: Seq<char>,
    pub step_index: int,
    pub depth: int,
    pub scope: Seq<(Seq<char>, Seq<char>)>,
    pub dimension: Seq<char>,
    pub primary_metric: Seq<char>,
    pub strongest_segment: Option<Seq<char>>,
    pub strongest_delta_primary_metric_value: Num,
    pub strongest_delta_share_pp: Num,
    pub score: Num,
}

impl View for InvestigationBranchNode {
    type V = NodeView;

    open spec fn view(&self) -> NodeView {
        NodeView {
            id: self.id@,
            step_index: self.step_index as int,
            depth: self.depth as int,
            scope: scope::bindings(self.scope@),
            dimension: self.dimension@,
            primary_metric: self.primary_metric@,
            strongest_segment: planner::optional_text(self.strongest_segment),
            strongest_delta_primary_metric_value: self.strongest_delta_primary_metric_value,
            strongest_delta_share_pp: self.strongest_delta_share_pp,
            score: self.score,
        }
    }
}

pub open spec fn node_views(s: Seq<InvestigationBranchNode>) -> Seq<NodeView> {
    Seq::new(s.len(), |i: int| s[i]@)
}

/// An edge between two nodes, by their places.
#[derive(Clone, Copy, Debug, PartialEq, Eq, Structural)]
pub struct BranchEdge {
    pub parent: usize,
    pub child: usize,
}

/// The node of a step.
pub open spec fn node_of(step: InvestigationStep, index: int, mode: InvestigationMode) -> NodeView {
    let any = step.movers@.len() > 0;
    let top = step.movers@[0];
    NodeView {
        id: "d"@ + digits::decimal(step.depth as nat) + ":"@ + step.dimension@ + ":"@
            + scope::scope_key(scope::bindings(step.scope@)),
        step_index: index,
        depth: step.depth as int,
        scope: scope::bindings(step.scope@),
        dimension: step.dimension@,
        primary_metric: step.primary_metric@,
        strongest_segment: if any {
            Some(top.segment@)
        } else {
            None
        },
        strongest_delta_primary_metric_value: if any {
            top.delta_primary_metric_value
        } else {
            Num::zero_spec()
        },
        strongest_delta_share_pp: if any {
            top.delta_share_pp
        } else {
            Num::zero_spec()
        },
        score: drill::step_score(step, mode),
    }
}

/// The nodes of all steps.
pub open spec fn nodes_of(steps: Seq<InvestigationStep>, mode: InvestigationMode) -> Seq<NodeView> {
    Seq::new(steps.len(), |i: int| node_of(steps[i], i, mode))
}

/// A node is the parent of another: one level higher, with a scope that the
/// other narrows by one binding of the dimension that the node looked at.
pub open spec fn is_parent(child: NodeView) -> spec_fn(NodeView) -> bool {
    |p: NodeView|
        p.depth + 1 == child.depth && p.scope.len() + 1 == child.scope.len() && scope::opens(
            child.scope,
            p.scope,
        ) && child.scope[p.scope.len() as int].0 == p.dimension
}

/// The edges of the first `n` nodes: each to its first parent, where it has one.
pub open spec fn edges_of(nodes: Seq<NodeView>, n: int) -> Seq<(int, int)>
    decreases n,
{
    if n <= 0 {
        Seq::empty()
    } else {
        let front = edges_of(nodes, n - 1);
        let child = nodes[n - 1];
        if child.depth == 0 || child.scope.len() == 0 {
            front
        } else {
            match list::first_from(nodes, is_parent(child), 0) {
                Some(p) => front.push((p, n - 1)),
                None => front,
            }
        }
    }
}

pub open spec fn edge_views(s: Seq<BranchEdge>) -> Seq<(int, int)> {
    Seq::new(s.len(), |i: int| (s[i].parent as int, s[i].child as int))
}

fn make_node(step: &InvestigationStep, index: usize, mode: InvestigationMode) -> (r:
    InvestigationBranchNode)
    ensures
        r@ == node_of(*step, index as int, mode),
{
    let mut id = cat5(
        "d",
        count_text(step.depth).as_str(),
        ":",
        step.dimension.as_str(),
        ":",
    );
    id.append(investigation_scope_key(step.scope.as_slice()).as_str());
    let any: bool = step.movers.len() > 0;
    InvestigationBranchNode {
        id,
        step_index: index,
        depth: step.depth,
        scope: copy_scope(step.scope.as_slice()),
        dimension: step.dimension.clone(),
        primary_metric: step.primary_metric.clone(),
        strongest_segment: if any {
            Some(step.movers[0].segment.clone())
        } else {
            None
        },
        strongest_delta_primary_metric_value: if any {
            step.movers[0].delta_primary_metric_value
        } else {
            Num::zero()
        },
        strongest_delta_share_pp: if any {
            step.movers[0].delta_share_pp
        } else {
            Num::zero()
        },
        score: top_step_score(step, mode),
    }
}

fn is_parent_of(p: &InvestigationBranchNode, child: &InvestigationBranchNode) -> (r: bool)
    ensures
        r == is_parent(child@)(p@),
{
    let ghost inner = scope::bindings(child.scope@);
    if child.depth == 0 || p.depth != child.depth - 1 {
        return false;
    }
    if child.scope.len() == 0 || p.scope.len() != child.scope.len() - 1 {
        assert(inner.len() == child.scope@.len());
        return false;
    }
    let k: usize = p.scope.len();
    assert(inner[k as int].0 == child.scope@[k as int].0@);
    scope_starts_with(child.scope.as_slice(), p.scope.as_slice()) && same(
        child.scope[k].0.as_str(),
        p.dimension.as_str(),
    )
}

fn find_parent(nodes: &Vec<InvestigationBranchNode>, child: usize) -> (r: Option<usize>)
    requires
        child < nodes.len(),
    ensures
        match r {
            Some(p) => p < nodes.len() && list::first_from(
                node_views(nodes@),
                is_parent(nodes@[child as int]@),
                0,
            ) == Some(p as int),
            None => list::first_from(
                node_views(nodes@),
                is_parent(nodes@[child as int]@),
                0,
            ) is None,
        },
{
    let ghost all = node_views(nodes@);
    let ghost test = is_parent(nodes@[child as int]@);
    let mut i: usize = 0;
    while i < nodes.len()
        invariant
            i <= nodes.len(),
            child < nodes.len(),
            all == node_views(nodes@),
            test == is_parent(nodes@[child as int]@),
            list::first_from(all, test, i as int) == list::first_from(all, test, 0),
        decreases nodes.len() - i,
    {
        assert(all[i as int] == nodes@[i as int]@);
        if is_parent_of(&nodes[i], &nodes[child]) {
            return Some(i);
        }
        i += 1;
    }
    None
}

/// The graph of an investigation: a node for each step, and an edge from each
/// step to the first one that it narrows.
#[verifier::loop_isolation(false)]
pub fn build_investigation_branch_graph(
    steps: &Vec<InvestigationStep>,
    mode: InvestigationMode,
) -> (r: (Vec<InvestigationBranchNode>, Vec<BranchEdge>))
    ensures
        node_views(r.0@) == nodes_of(steps@, mode),
        edge_views(r.1@) == edges_of(nodes_of(steps@, mode), steps@.len() as int),
        forall|i: int|
            0 <= i < r.1@.len() ==> (#[trigger] r.1@[i]).parent < steps@.len() && r.1@[i].child
                < steps@.len(),
{
    let mut nodes: Vec<InvestigationBranchNode> = Vec::new();
    let mut i: usize = 0;
    while i < steps.len()
        invariant
            i <= steps.len(),
            nodes.len() == i,
            forall|k: int|
                0 <= k < i ==> (#[trigger] nodes@[k])@ == node_of(steps@[k], k, mode),
        decreases steps.len() - i,
    {
        nodes.push(make_node(&steps[i], i, mode));
        i += 1;
    }
    let ghost all = nodes_of(steps@, mode);
    assert(node_views(nodes@) =~= all);
    let mut edges: Vec<BranchEdge> = Vec::new();
    let mut k: usize = 0;
    assert(edge_views(edges@) =~= Seq::empty());
    while k < nodes.len()
        invariant
            k <= nodes.len(),
            edge_views(edges@) == edges_of(all, k as int),
            forall|j: int|
                0 <= j < edges@.len() ==> (#[trigger] edges@[j]).parent < nodes@.len()
                    && edges@[j].child < nodes@.len(),
        decreases nodes.len() - k,
    {
        let ghost before = edge_views(edges@);
        assert(all[k as int] == nodes@[k as int]@);
        assert(all[k as int].scope.len() == nodes@[k as int].scope@.len());
        if !(nodes[k].depth == 0 || nodes[k].scope.len() == 0) {
            match find_parent(&nodes, k) {
                Some(p) => {
                    edges.push(BranchEdge { parent: p, child: k });
                    assert(edge_views(edges@) =~= before.push((p as int, k as int)));
                },
                None => {},
            }
        }
        k += 1;
    }
    (nodes, edges)
}

/// Every edge leads from a step to one that is a level deeper and narrows it.
pub proof fn law_edges_descend(nodes: Seq<NodeView>, n: int, k: int)
    requires
        0 <= n <= nodes.len(),
        0 <= k < edges_of(nodes, n).len(),
    ensures
        ({
            let e = edges_of(nodes, n)[k];
            &&& 0 <= e.0 < nodes.len()
            &&& 0 <= e.1 < n
            &&& nodes[e.0].depth + 1 == nodes[e.1].depth
            &&& scope::opens(nodes[e.1].scope, nodes[e.0].scope)
        }),
    decreases n,
{
    if n > 0 {
        let front = edges_of(nodes, n - 1);
        let child = nodes[n - 1];
        list::lemma_first_from(nodes, is_parent(child), 0);
        if k < front.len() {
            assert(edges_of(nodes, n)[k] == front[k]);
            law_edges_descend(nodes, n - 1, k);
        }
    }
}

// ---------------------------------------------------------------------------
// Drawing
// ---------------------------------------------------------------------------

/// What a node shows.
pub open spec fn node_label(n: NodeView) -> Seq<char> {
    scan::replace_char(
        "d"@ + digits::decimal(n.depth as nat) + " | "@ + n.dimension + " | scope: "@
            + scope::scope_text(n.scope) + " | strongest: "@ + (match n.strongest_segment {
            Some(s) => s,
            None => "(none)"@,
        }),
        '"',
        "'"@,
    )
}

/// The lines of the first `n` nodes.
pub open spec fn node_lines(out: Seq<Seq<char>>, nodes: Seq<NodeView>, n: int) -> Seq<Seq<char>>
    decreases n,
{
    if n <= 0 {
        out
    } else {
        node_lines(out, nodes, n - 1).push(
            "  N"@ + digits::decimal(nodes[n - 1].step_index as nat) + "[\""@ + node_label(
                nodes[n - 1],
            ) + "\"]"@,
        )
    }
}

/// Nodes with an id.
pub open spec fn has_id(id: Seq<char>) -> spec_fn(NodeView) -> bool {
    |n: NodeView| n.id == id
}

/// The first node with an id.
pub open spec fn drawn_index(nodes: Seq<NodeView>, id: Seq<char>) -> int {
    match list::first_from(nodes, has_id(id), 0) {
        Some(i) => nodes[i].step_index,
        None => -1,
    }
}

/// The lines of the first `n` edges. Each leads from the first node with its
/// parent's id to the first with its child's id. The improvements of the score
/// come as texts.
pub open spec fn edge_lines(
    out: Seq<Seq<char>>,
    nodes: Seq<NodeView>,
    edges: Seq<BranchEdge>,
    improvements: Seq<String>,
    n: int,
) -> Seq<Seq<char>>
    decreases n,
{
    if n <= 0 {
        out
    } else {
        let e = edges[n - 1];
        edge_lines(out, nodes, edges, improvements, n - 1).push(
            "  N"@ + digits::decimal(
                drawn_index(nodes, nodes[e.parent as int].id) as nat,
            ) + " -->|"@ + improvements[n - 1]@ + "| N"@ + digits::decimal(
                drawn_index(nodes, nodes[e.child as int].id) as nat,
            ),
        )
    }
}

/// The graph as a diagram.
pub open spec fn graph_lines(
    nodes: Seq<NodeView>,
    edges: Seq<BranchEdge>,
    improvements: Seq<String>,
) -> Seq<Seq<char>> {
    edge_lines(
        node_lines(seq!["```mermaid"@, "graph TD"@], nodes, nodes.len() as int),
        nodes,
        edges,
        improvements,
        edges.len() as int,
    ).push("```"@)
}

fn write_node_label(n: &InvestigationBranchNode) -> (r: String)
    ensures
        r@ == node_label(n@),
{
    let mut s = cat5(
        "d",
        count_text(n.depth).as_str(),
        " | ",
        n.dimension.as_str(),
        " | scope: ",
    );
    s.append(format_scope(n.scope.as_slice()).as_str());
    s.append(" | strongest: ");
    match &n.strongest_segment {
        Some(x) => {
            s.append(x.as_str());
        },
        None => {
            s.append("(none)");
        },
    }
    replaced_char(s.as_str(), '"', "'")
}

fn find_drawn(nodes: &Vec<InvestigationBranchNode>, at: usize) -> (r: usize)
    requires
        at < nodes.len(),
        forall|i: int| 0 <= i < nodes@.len() ==> (#[trigger] nodes@[i]).step_index == i,
    ensures
        r == drawn_index(node_views(nodes@), nodes@[at as int].id@),
{
    let ghost all = node_views(nodes@);
    let ghost test = has_id(nodes@[at as int].id@);
    let mut i: usize = 0;
    proof {
        list::lemma_first_from(all, test, 0);
        assert(all[at as int].id == nodes@[at as int].id@);
        assert(test(all[at as int]));
    }
    while i < nodes.len()
        invariant
            i <= nodes.len(),
            at < nodes.len(),
            all == node_views(nodes@),
            test == has_id(nodes@[at as int].id@),
            list::first_from(all, test, i as int) == list::first_from(all, test, 0),
            list::first_from(all, test, 0) is Some,
        decreases nodes.len() - i,
    {
        assert(all[i as int] == nodes@[i as int]@);
        if same(nodes[i].id.as_str(), nodes[at].id.as_str()) {
            return nodes[i].step_index;
        }
        i += 1;
    }
    0
}

/// Draws the graph. `improvements` holds the text of each edge's improvement.
#[verifier::loop_isolation(false)]
pub fn draw_branch_graph(
    nodes: &Vec<InvestigationBranchNode>,
    edges: &Vec<BranchEdge>,
    improvements: &Vec<String>,
) -> (r: Vec<String>)
    requires
        improvements.len() == edges.len(),
        forall|i: int| 0 <= i < nodes@.len() ==> (#[trigger] nodes@[i]).step_index == i,
        forall|i: int|
            0 <= i < edges@.len() ==> (#[trigger] edges@[i]).parent < nodes@.len()
                && edges@[i].child < nodes@.len(),
    ensures
        text::views(r@) == graph_lines(node_views(nodes@), edges@, improvements@),
{
    let ghost all = node_views(nodes@);
    let ghost head = seq!["```mermaid"@, "graph TD"@];
    let mut out: Vec<String> = Vec::new();
    out.push("```mermaid".to_owned());
    out.push("graph TD".to_owned());
    assert(text::views(out@) =~= head);
    let mut i: usize = 0;
    while i < nodes.len()
        invariant
            i <= nodes.len(),
            text::views(out@) == node_lines(head, all, i as int),
        decreases nodes.len() - i,
    {
        assert(all[i as int] == nodes@[i as int]@);
        let label = write_node_label(&nodes[i]);
        say(
            &mut out,
            cat5(
                "  N",
                count_text(nodes[i].step_index).as_str(),
                "[\"",
                label.as_str(),
                "\"]",
            ),
        );
        i += 1;
    }
    let ghost drawn = text::views(out@);
    let mut k: usize = 0;
    while k < edges.len()
        invariant
            k <= edges.len(),
            text::views(out@) == edge_lines(drawn, all, edges@, improvements@, k as int),
        decreases edges.len() - k,
    {
        let e = edges[k];
        assert(edges@[k as int].parent < nodes@.len());
        let p: usize = find_drawn(nodes, e.parent);
        let c: usize = find_drawn(nodes, e.child);
        assert(all[e.parent as int].id == nodes@[e.parent as int].id@);
        assert(all[e.child as int].id == nodes@[e.child as int].id@);
        let mut line = cat5(
            "  N",
            count_text(p).as_str(),
            " -->|",
            improvements[k].as_str(),
            "| N",
        );
        line.append(count_text(c).as_str());
        say(&mut out, line);
        k += 1;
    }
    say(&mut out, "```".to_owned());
    out
}

/// The graph as a page of its own.
pub fn render_branch_graph_mermaid(
    nodes: &Vec<InvestigationBranchNode>,
    edges: &Vec<BranchEdge>,
    improvements: &Vec<String>,
) -> (r: String)
    requires
        improvements.len() == edges.len(),
        forall|i: int| 0 <= i < nodes@.len() ==> (#[trigger] nodes@[i]).step_index == i,
        forall|i: int|
            0 <= i < edges@.len() ==> (#[trigger] edges@[i]).parent < nodes@.len()
                && edges@[i].child < nodes@.len(),
    ensures
        r@ == report::page(graph_lines(node_views(nodes@), edges@, improvements@)),
{
    let lines = draw_branch_graph(nodes, edges, improvements);
    write_page(&lines)
}

// ---------------------------------------------------------------------------
// Branches side by side
// ---------------------------------------------------------------------------

/// A branch: where it begins and what its deepest step shows.
#[derive(Clone, Debug)]
pub struct InvestigationBranchSummaryRow {
    pub root_dimension: String,
    pub root_segment: String,
    pub root_score: Num,
    pub deepest_depth: usize,
    pub deepest_dimension: String,
    pub deepest_segment: String,
    pub deepest_delta_primary_metric_value: Num,
    pub deepest_score: Num,
}

/// A branch in views.
pub struct BranchRowView {
    pub root_dimension: Seq<char>,
    pub root_segment: Seq<char>,
    pub root_score: Num,
    pub deepest_depth: int,
    pub deepest_dimension: Seq<char>,
    pub deepest_segment: Seq<char>,
    pub deepest_delta_primary_metric_value: Num,
    pub deepest_score: Num,
}

impl View for InvestigationBranchSummaryRow {
    type V = BranchRowView;

    open spec fn view(&self) -> BranchRowView {
        BranchRowView {
            root_dimension: self.root_dimension@,
            root_segment: self.root_segment@,
            root_score: self.root_score,
            deepest_depth: self.deepest_depth as int,
            deepest_dimension: self.deepest_dimension@,
            deepest_segment: self.deepest_segment@,
            deepest_delta_primary_metric_value: self.deepest_delta_primary_metric_value,
            deepest_score: self.deepest_score,
        }
    }
}

pub open spec fn row_views(s: Seq<InvestigationBranchSummaryRow>) -> Seq<BranchRowView> {
    Seq::new(s.len(), |i: int| s[i]@)
}

/// The higher of a score so far and one more.
pub open spec fn higher_score(best: Option<Num>, s: Num) -> Option<Num> {
    match best {
        None => Some(s),
        Some(b) => if b.lt(s) {
            Some(s)
        } else {
            Some(b)
        },
    }
}

/// The highest score of a segment among the first `n` movers.
pub open spec fn segment_score(
    best: Option<Num>,
    movers: Seq<InvestigationMover>,
    mode: InvestigationMode,
    segment: Seq<char>,
    n: int,
) -> Option<Num>
    decreases n,
{
    if n <= 0 {
        best
    } else {
        let front = segment_score(best, movers, mode, segment, n - 1);
        if movers[n - 1].segment@ == segment {
            higher_score(front, drill::score(movers[n - 1], mode))
        } else {
            front
        }
    }
}

/// The highest score of a segment of a dimension among the first `n` steps,
/// as far as those look at the whole data.
pub open spec fn root_score(
    steps: Seq<InvestigationStep>,
    mode: InvestigationMode,
    dimension: Seq<char>,
    segment: Seq<char>,
    n: int,
) -> Option<Num>
    decreases n,
{
    if n <= 0 {
        None
    } else {
        let front = root_score(steps, mode, dimension, segment, n - 1);
        let s = steps[n - 1];
        if s.scope@.len() == 0 && s.dimension@ == dimension {
            segment_score(front, s.movers@, mode, segment, s.movers@.len() as int)
        } else {
            front
        }
    }
}

fn find_root_score(
    steps: &Vec<InvestigationStep>,
    mode: InvestigationMode,
    dimension: &str,
    segment: &str,
) -> (r: Option<Num>)
    ensures
        r == root_score(steps@, mode, dimension@, segment@, steps@.len() as int),
{
    let mut best: Option<Num> = None;
    let mut i: usize = 0;
    while i < steps.len()
        invariant
            i <= steps.len(),
            best == root_score(steps@, mode, dimension@, segment@, i as int),
        decreases steps.len() - i,
    {
        let s = &steps[i];
        if s.scope.len() == 0 && same(s.dimension.as_str(), dimension) {
            let ghost front = best;
            let mut k: usize = 0;
            while k < s.movers.len()
                invariant
                    k <= s.movers.len(),
                    best == segment_score(front, s.movers@, mode, segment@, k as int),
                decreases s.movers.len() - k,
            {
                if same(s.movers[k].segment.as_str(), segment) {
                    let x = mover_score(&s.movers[k], mode);
                    match best {
                        None => {
                            best = Some(x);
                        },
                        Some(b) => {
                            if b.less(x) {
                                best = Some(x);
                            }
                        },
                    }
                }
                k += 1;
            }
        }
        i += 1;
    }
    best
}

/// The row of a step below the top.
pub open spec fn branch_row(
    steps: Seq<InvestigationStep>,
    mode: InvestigationMode,
    i: int,
) -> BranchRowView {
    let s = steps[i];
    let any = s.movers@.len() > 0;
    let root = s.scope@[0];
    BranchRowView {
        root_dimension: root.0@,
        root_segment: root.1@,
        root_score: match root_score(steps, mode, root.0@, root.1@, steps.len() as int) {
            Some(x) => x,
            None => drill::step_score(s, mode),
        },
        deepest_depth: s.depth as int,
        deepest_dimension: s.dimension@,
        deepest_segment: if any {
            s.movers@[0].segment@
        } else {
            "(none)"@
        },
        deepest_delta_primary_metric_value: if any {
            s.movers@[0].delta_primary_metric_value
        } else {
            Num::zero_spec()
        },
        deepest_score: drill::step_score(s, mode),
    }
}

/// The name of the branch to which a step belongs.
pub open spec fn branch_key(s: InvestigationStep) -> Seq<char> {
    s.scope@[0].0@ + "="@ + s.scope@[0].1@
}

/// Steps of a branch.
pub open spec fn of_branch(steps: Seq<InvestigationStep>, key: Seq<char>) -> spec_fn(int) -> bool {
    |i: int| branch_key(steps[i]) == key
}

/// A step takes the place of another in its branch: it is deeper, or as deep
/// with a score that exceeds the other's by more than the tolerance. `raised`
/// holds the scores of the steps, raised by the tolerance.
pub open spec fn goes_further(
    steps: Seq<InvestigationStep>,
    mode: InvestigationMode,
    raised: Seq<Num>,
    new: int,
    old_step: int,
) -> bool {
    steps[new].depth > steps[old_step].depth || (steps[new].depth == steps[old_step].depth
        && raised[old_step].lt(drill::step_score(steps[new], mode)))
}

/// The step that stands for each branch, among the steps below `n`: the one
/// that goes furthest, the branches in the order in which they begin.
pub open spec fn furthest_steps(
    steps: Seq<InvestigationStep>,
    mode: InvestigationMode,
    raised: Seq<Num>,
    n: int,
) -> Seq<int>
    decreases n,
{
    if n <= 1 {
        Seq::empty()
    } else {
        let front = furthest_steps(steps, mode, raised, n - 1);
        let i = n - 1;
        if steps[i].scope@.len() == 0 {
            front
        } else {
            match list::first_from(front, of_branch(steps, branch_key(steps[i])), 0) {
                None => front.push(i),
                Some(k) => if goes_further(steps, mode, raised, i, front[k]) {
                    front.update(k, i)
                } else {
                    front
                },
            }
        }
    }
}

/// Branches that began with a stronger segment come first, then those whose
/// deepest step is stronger, then by name.
pub open spec fn stronger_branch(
    a: InvestigationBranchSummaryRow,
    b: InvestigationBranchSummaryRow,
) -> bool {
    b.root_score.lt(a.root_score) || (!a.root_score.lt(b.root_score) && (b.deepest_score.lt(
        a.deepest_score,
    ) || (!a.deepest_score.lt(b.deepest_score) && order::text_less(
        a.root_segment@,
        b.root_segment@,
    ))))
}

pub open spec fn branch_order() -> spec_fn(
    InvestigationBranchSummaryRow,
    InvestigationBranchSummaryRow,
) -> bool {
    |a: InvestigationBranchSummaryRow, b: InvestigationBranchSummaryRow| stronger_branch(a, b)
}

fn is_stronger_branch(
    a: &InvestigationBranchSummaryRow,
    b: &InvestigationBranchSummaryRow,
) -> (r: bool)
    ensures
        r == stronger_branch(*a, *b),
{
    b.root_score.less(a.root_score) || (!a.root_score.less(b.root_score) && (b.deepest_score.less(
        a.deepest_score,
    ) || (!a.deepest_score.less(b.deepest_score) && text_before(
        a.root_segment.as_str(),
        b.root_segment.as_str(),
    ))))
}

pub open spec fn place_views(s: Seq<usize>) -> Seq<int> {
    Seq::new(s.len(), |i: int| s[i] as int)
}

fn same_branch(a: &InvestigationStep, b: &InvestigationStep) -> (r: bool)
    requires
        a.scope@.len() > 0,
        b.scope@.len() > 0,
    ensures
        r == (branch_key(*a) == branch_key(*b)),
{
    let x = cat3(a.scope[0].0.as_str(), "=", a.scope[0].1.as_str());
    let y = cat3(b.scope[0].0.as_str(), "=", b.scope[0].1.as_str());
    same(x.as_str(), y.as_str())
}

#[verifier::loop_isolation(false)]
fn find_furthest_steps(
    steps: &Vec<InvestigationStep>,
    mode: InvestigationMode,
    raised: &[Num],
) -> (r: Vec<usize>)
    requires
        raised.len() == steps.len(),
    ensures
        place_views(r@) == furthest_steps(steps@, mode, raised@, steps@.len() as int),
        forall|i: int|
            0 <= i < r@.len() ==> #[trigger] r@[i] < steps@.len() && steps@[r@[i] as int].scope@.len()
                > 0,
{
    let mut out: Vec<usize> = Vec::new();
    let mut i: usize = 1;
    assert(place_views(out@) =~= Seq::empty());
    while i < steps.len()
        invariant
            1 <= i,
            i <= steps.len() || i == 1,
            place_views(out@) == furthest_steps(steps@, mode, raised@, i as int),
            forall|k: int|
                0 <= k < out@.len() ==> #[trigger] out@[k] < steps@.len()
                    && steps@[out@[k] as int].scope@.len() > 0,
        decreases steps.len() - i,
    {
        if steps[i].scope.len() > 0 {
            let ghost front = place_views(out@);
            let ghost test = of_branch(steps@, branch_key(steps@[i as int]));
            let mut k: usize = 0;
            let mut found: bool = false;
            while k < out.len() && !found
                invariant
                    k <= out@.len(),
                    out@.len() == front.len(),
                    place_views(out@) == front,
                    forall|m: int|
                        0 <= m < out@.len() ==> #[trigger] out@[m] < steps@.len()
                            && steps@[out@[m] as int].scope@.len() > 0,
                    !found ==> list::first_from(front, test, k as int) == list::first_from(
                        front,
                        test,
                        0,
                    ),
                    found ==> k < out@.len() && list::first_from(front, test, 0) == Some(k as int),
                decreases out.len() - k + if found {
                    0int
                } else {
                    1int
                },
            {
                assert(front[k as int] == out@[k as int]);
                if same_branch(&steps[out[k]], &steps[i]) {
                    found = true;
                } else {
                    k += 1;
                }
            }
            if found {
                let held: usize = out[k];
                assert(front[k as int] == held);
                let further: bool = steps[i].depth > steps[held].depth || (steps[i].depth
                    == steps[held].depth && raised[held].less(top_step_score(&steps[i], mode)));
                if further {
                    out.set(k, i);
                    assert(place_views(out@) =~= front.update(k as int, i as int));
                }
            } else {
                out.push(i);
                assert(place_views(out@) =~= front.push(i as int));
            }
        }
        i += 1;
    }
    out
}

fn make_row(steps: &Vec<InvestigationStep>, mode: InvestigationMode, i: usize) -> (r:
    InvestigationBranchSummaryRow)
    requires
        i < steps.len(),
        steps@[i as int].scope@.len() > 0,
    ensures
        r@ == branch_row(steps@, mode, i as int),
{
    let s = &steps[i];
    let own = top_step_score(s, mode);
    let root = match find_root_score(steps, mode, s.scope[0].0.as_str(), s.scope[0].1.as_str()) {
        Some(x) => x,
        None => own,
    };
    let any: bool = s.movers.len() > 0;
    InvestigationBranchSummaryRow {
        root_dimension: s.scope[0].0.clone(),
        root_segment: s.scope[0].1.clone(),
        root_score: root,
        deepest_depth: s.depth,
        deepest_dimension: s.dimension.clone(),
        deepest_segment: if any {
            s.movers[0].segment.clone()
        } else {
            "(none)".to_owned()
        },
        deepest_delta_primary_metric_value: if any {
            s.movers[0].delta_primary_metric_value
        } else {
            Num::zero()
        },
        deepest_score: own,
    }
}

/// The rows of all branches, in the order in which the branches begin.
pub open spec fn branch_rows(
    steps: Seq<InvestigationStep>,
    mode: InvestigationMode,
    raised: Seq<Num>,
) -> Seq<BranchRowView> {
    let places = furthest_steps(steps, mode, raised, steps.len() as int);
    Seq::new(places.len(), |i: int| branch_row(steps, mode, places[i]))
}

/// The rows are those of the branches, strongest first, at most `limit`.
pub open spec fn is_branch_summary(
    rows: Seq<InvestigationBranchSummaryRow>,
    steps: Seq<InvestigationStep>,
    mode: InvestigationMode,
    raised: Seq<Num>,
    limit: usize,
) -> bool {
    exists|all: Seq<InvestigationBranchSummaryRow>|
        #[trigger] row_views(all) == branch_rows(steps, mode, raised) && rows == crate::answers::at_most(
            order::sorted(all, branch_order()),
            limit as int,
        )
}

/// The branches of an investigation side by side: for each segment of the top
/// level that was gone into, the step that went furthest. `raised` holds the
/// scores of the steps, raised by the tolerance.
pub fn build_branch_summary_rows(
    steps: &Vec<InvestigationStep>,
    mode: InvestigationMode,
    limit: usize,
    raised: &[Num],
) -> (r: Vec<InvestigationBranchSummaryRow>)
    requires
        raised.len() == steps.len(),
    ensures
        is_branch_summary(r@, steps@, mode, raised@, limit),
{
    let picked = find_furthest_steps(steps, mode, raised);
    let mut all: Vec<InvestigationBranchSummaryRow> = Vec::new();
    let mut i: usize = 0;
    while i < picked.len()
        invariant
            i <= picked.len(),
            all.len() == i,
            forall|k: int|
                0 <= k < picked@.len() ==> #[trigger] picked@[k] < steps@.len()
                    && steps@[picked@[k] as int].scope@.len() > 0,
            forall|k: int|
                0 <= k < i ==> (#[trigger] all@[k])@ == branch_row(
                    steps@,
                    mode,
                    picked@[k] as int,
                ),
        decreases picked.len() - i,
    {
        all.push(make_row(steps, mode, picked[i]));
        i += 1;
    }
    let ghost places = furthest_steps(steps@, mode, raised@, steps@.len() as int);
    assert(place_views(picked@).len() == picked@.len());
    assert forall|k: int| 0 <= k < all@.len() implies row_views(all@)[k] == branch_rows(
        steps@,
        mode,
        raised@,
    )[k] by {
        assert(places[k] == picked@[k] as int);
    }
    assert(row_views(all@) =~= branch_rows(steps@, mode, raised@));
    let ghost unsorted = all@;
    let precedes = |a: &InvestigationBranchSummaryRow, b: &InvestigationBranchSummaryRow| -> (x: bool)
        ensures
            x == stronger_branch(*a, *b),
        { is_stronger_branch(a, b) };
    let mut rows = sort_by(all, precedes, Ghost(branch_order()));
    rows.truncate(limit);
    assert(row_views(unsorted) == branch_rows(steps@, mode, raised@));
    assert(rows@ == crate::answers::at_most(order::sorted(unsorted, branch_order()), limit as int));
    rows
}

// ---------------------------------------------------------------------------
// What to ask next
// ---------------------------------------------------------------------------

/// The bit pattern of five thousandths.
pub const SIGNAL: u64 = 0x3f74_7ae1_47ae_147b;

/// The change of a segment that the mode asks for.
pub open spec fn telling_change(m: InvestigationMover, mode: InvestigationMode) -> Num {
    if mode == InvestigationMode::ConcentrationDrivers {
        m.delta_share_pp
    } else {
        m.delta_primary_metric_value
    }
}

/// The last step shows a segment worth going into.
pub open spec fn leads_on(step: InvestigationStep, mode: InvestigationMode) -> bool {
    step.movers@.len() > 0 && step.movers@[0].segment@ != "(blank)"@ && (Num { bits: SIGNAL }).lt(
        drill::score(step.movers@[0], mode).abs_spec(),
    )
}

/// The question that leads deeper. `digits` is the decimal notation of the
/// absolute change.
pub open spec fn deeper_question(
    step: InvestigationStep,
    mode: InvestigationMode,
    digits: Seq<char>,
) -> Seq<char> {
    let m = step.movers@[0];
    let amount = digits::signed_text(telling_change(m, mode), digits, 2);
    let within = if step.scope@.len() == 0 {
        ""@
    } else {
        "within scope ["@ + scope::scope_text(scope::bindings(step.scope@)) + "], "@
    };
    let detail = if mode == InvestigationMode::ConcentrationDrivers {
        "delta share "@ + amount + " pp"@
    } else {
        "delta "@ + step.primary_metric@ + " "@ + amount
    };
    "Drill deeper "@ + within + "on "@ + step.dimension@ + "='"@ + m.segment@ + "' to explain "@
        + detail + " and whether it is persistent."@
}

/// The question that a mode leaves where nothing leads deeper.
pub open spec fn closing_question(mode: InvestigationMode) -> Seq<char> {
    match mode {
        InvestigationMode::ConcentrationDrivers => "Which segment-level policy or pricing action can reduce top-5 concentration next period?"@,
        InvestigationMode::CompareSnapshots => "Which of these movers is expected to remain material in the next snapshot?"@,
        _ => "Which segment should we test first to reverse the observed change?"@,
    }
}

/// What to ask next: into the strongest segment of the last step where that
/// moved at all, else the question that the mode leaves. `digits` is the
/// decimal notation of that segment's absolute change.
pub fn recommended_next_question(
    mode: InvestigationMode,
    last_step: Option<&InvestigationStep>,
    digits: &str,
) -> (r: String)
    ensures
        r@ == (match last_step {
            Some(step) => if leads_on(*step, mode) {
                deeper_question(*step, mode, digits@)
            } else {
                closing_question(mode)
            },
            None => closing_question(mode),
        }),
{
    match last_step {
        Some(step) => {
            if step.movers.len() > 0 && !same(step.movers[0].segment.as_str(), "(blank)") && (Num {
                bits: SIGNAL,
            }).less(mover_score(&step.movers[0], mode).abs()) {
                let m = &step.movers[0];
                let within = if step.scope.len() == 0 {
                    "".to_owned()
                } else {
                    cat3("within scope [", format_scope(step.scope.as_slice()).as_str(), "], ")
                };
                let detail = if mode == InvestigationMode::ConcentrationDrivers {
                    cat3(
                        "delta share ",
                        signed_fmt_num(m.delta_share_pp, digits, 2).as_str(),
                        " pp",
                    )
                } else {
                    let mut d = cat3("delta ", step.primary_metric.as_str(), " ");
                    d.append(
                        signed_fmt_num(m.delta_primary_metric_value, digits, 2).as_str(),
                    );
                    d
                };
                let mut out = cat5(
                    "Drill deeper ",
                    within.as_str(),
                    "on ",
                    step.dimension.as_str(),
                    "='",
                );
                out.append(m.segment.as_str());
                out.append("' to explain ");
                out.append(detail.as_str());
                out.append(" and whether it is persistent.");
                return out;
            }
        },
        None => {},
    }
    match mode {
        InvestigationMode::ConcentrationDrivers => "Which segment-level policy or pricing action can reduce top-5 concentration next period?".to_owned(),
        InvestigationMode::CompareSnapshots => "Which of these movers is expected to remain material in the next snapshot?".to_owned(),
        _ => "Which segment should we test first to reverse the observed change?".to_owned(),
    }
}

proof fn lemma_furthest_steps(
    steps: Seq<InvestigationStep>,
    mode: InvestigationMode,
    raised: Seq<Num>,
    n: int,
)
    requires
        0 <= n <= steps.len(),
    ensures
        ({
            let all = furthest_steps(steps, mode, raised, n);
            &&& forall|k: int|
                0 <= k < all.len() ==> 1 <= #[trigger] all[k] < n && steps[all[k]].scope@.len() > 0
            &&& forall|i: int, j: int|
                0 <= i < j < all.len() ==> branch_key(steps[#[trigger] all[i]]) != branch_key(
                    steps[#[trigger] all[j]],
                )
            &&& forall|i: int|
                1 <= i < n && (#[trigger] steps[i]).scope@.len() > 0 ==> goes_as_deep(all, steps, i)
        }),
    decreases n,
{
    if n > 1 {
        lemma_furthest_steps(steps, mode, raised, n - 1);
        let front = furthest_steps(steps, mode, raised, n - 1);
        let all = furthest_steps(steps, mode, raised, n);
        let last = n - 1;
        if steps[last].scope@.len() == 0 {
        } else {
            let same = of_branch(steps, branch_key(steps[last]));
            list::lemma_first_from(front, same, 0);
            match list::first_from(front, same, 0) {
                None => {
                    assert forall|i: int, j: int| 0 <= i < j < all.len() implies branch_key(
                        steps[#[trigger] all[i]],
                    ) != branch_key(steps[#[trigger] all[j]]) by {
                        assert(all[i] == front[i]);
                        if j < front.len() {
                            assert(all[j] == front[j]);
                        } else {
                            assert(!same(front[i]));
                        }
                    }
                    assert forall|i: int|
                        1 <= i < n && (#[trigger] steps[i]).scope@.len() > 0 implies goes_as_deep(
                        all,
                        steps,
                        i,
                    ) by {
                        if i < last {
                            assert(goes_as_deep(front, steps, i));
                            let k = choose|k: int|
                                0 <= k < front.len() && branch_key(steps[#[trigger] front[k]])
                                    == branch_key(steps[i]) && steps[i].depth
                                    <= steps[front[k]].depth;
                            assert(all[k] == front[k]);
                        } else {
                            assert(all[all.len() - 1] == i);
                        }
                    }
                },
                Some(at) => {
                    assert(same(front[at]));
                    assert forall|i: int|
                        1 <= i < n && (#[trigger] steps[i]).scope@.len() > 0 implies goes_as_deep(
                        all,
                        steps,
                        i,
                    ) by {
                        if i < last {
                            assert(goes_as_deep(front, steps, i));
                            let k = choose|k: int|
                                0 <= k < front.len() && branch_key(steps[#[trigger] front[k]])
                                    == branch_key(steps[i]) && steps[i].depth
                                    <= steps[front[k]].depth;
                            if k == at && all[at] == last {
                                assert(branch_key(steps[all[at]]) == branch_key(steps[i]));
                            } else {
                                assert(all[k] == front[k]);
                            }
                        } else {
                            assert(branch_key(steps[all[at]]) == branch_key(steps[i]));
                        }
                    }
                },
            }
        }
    }
}

/// Among the picked steps there is one of the same branch that goes as deep.
pub open spec fn goes_as_deep(
    picked: Seq<int>,
    steps: Seq<InvestigationStep>,
    i: int,
) -> bool {
    exists|k: int|
        0 <= k < picked.len() && branch_key(steps[#[trigger] picked[k]]) == branch_key(steps[i])
            && steps[i].depth <= steps[picked[k]].depth
}

/// There is one row for every branch that was gone into, and it tells of the
/// deepest step of the branch: no step of the same branch goes deeper.
pub proof fn law_branches_are_told_by_their_deepest_step(
    steps: Seq<InvestigationStep>,
    mode: InvestigationMode,
    raised: Seq<Num>,
)
    ensures
        ({
            let picked = furthest_steps(steps, mode, raised, steps.len() as int);
            &&& forall|i: int, j: int|
                0 <= i < j < picked.len() ==> branch_key(steps[#[trigger] picked[i]])
                    != branch_key(steps[#[trigger] picked[j]])
            &&& forall|k: int|
                0 <= k < picked.len() ==> 1 <= #[trigger] picked[k] < steps.len()
                    && steps[picked[k]].scope@.len() > 0
            &&& forall|i: int|
                1 <= i < steps.len() && (#[trigger] steps[i]).scope@.len() > 0 ==> goes_as_deep(
                    picked,
                    steps,
                    i,
                )
            &&& forall|k: int|
                0 <= k < picked.len() ==> ({
                    let row = #[trigger] branch_rows(steps, mode, raised)[k];
                    let s = steps[picked[k]];
                    &&& row.root_dimension == s.scope@[0].0@ && row.root_segment == s.scope@[0].1@
                    &&& row.deepest_depth == s.depth && row.deepest_dimension == s.dimension@
                    &&& s.movers@.len() > 0 ==> row.deepest_segment == s.movers@[0].segment@
                        && row.deepest_delta_primary_metric_value
                        == s.movers@[0].delta_primary_metric_value
                })
        }),
{
    lemma_furthest_steps(steps, mode, raised, steps.len() as int);
}

/// Every score of a list of rows is a number.
pub open spec fn scores_are_numbers(rows: Seq<InvestigationBranchSummaryRow>) -> bool {
    forall|i: int|
        0 <= i < rows.len() ==> !(#[trigger] rows[i]).root_score.is_nan()
            && !rows[i].deepest_score.is_nan()
}

/// The branches that are listed are those with the highest scores at their root,
/// the highest first.
pub proof fn law_listed_branches_score_highest(
    all: Seq<InvestigationBranchSummaryRow>,
    limit: int,
)
    requires
        0 <= limit,
        scores_are_numbers(all),
    ensures
        order::takes_highest(
            crate::answers::at_most(order::sorted(all, branch_order()), limit),
            all,
            |r: InvestigationBranchSummaryRow| r.root_score.rank(),
            limit,
        ),
{
    let rank = |r: InvestigationBranchSummaryRow| r.root_score.rank();
    let before = branch_order();
    assert forall|a: InvestigationBranchSummaryRow, b: InvestigationBranchSummaryRow|
        all.contains(a) && all.contains(b) implies (#[trigger] before(a, b) ==> rank(a) >= rank(b))
        && (rank(a) > rank(b) ==> before(a, b)) by {
        let i = choose|i: int| 0 <= i < all.len() && all[i] == a;
        let j = choose|j: int| 0 <= j < all.len() && all[j] == b;
        assert(!all[i].root_score.is_nan() && !all[j].root_score.is_nan());
    }
    order::lemma_sorted_permutation(all, before);
    order::lemma_takes_highest(all, before, rank, limit);
}

/// The size of a segment's change is not above a score.
spec fn not_above(
    steps: Seq<InvestigationStep>,
    mode: InvestigationMode,
    dimension: Seq<char>,
    segment: Seq<char>,
    score: Option<Num>,
    n: int,
) -> bool {
    forall|i: int, m: int|
        0 <= i < n && (#[trigger] steps[i]).scope@.len() == 0 && steps[i].dimension@ == dimension
            && 0 <= m < steps[i].movers@.len() && (#[trigger] steps[i].movers@[m]).segment@
            == segment ==> score is Some && !score->0.lt(
            if mode == InvestigationMode::ConcentrationDrivers {
                steps[i].movers@[m].delta_share_pp.abs_spec()
            } else {
                steps[i].movers@[m].delta_primary_metric_value.abs_spec()
            },
        )
}

proof fn lemma_segment_score(
    best: Option<Num>,
    movers: Seq<InvestigationMover>,
    mode: InvestigationMode,
    segment: Seq<char>,
    n: int,
)
    requires
        0 <= n <= movers.len(),
        best is Some ==> !best->0.is_nan(),
        drill::changes_are_numbers(movers),
    ensures
        ({
            let s = segment_score(best, movers, mode, segment, n);
            &&& s is Some ==> !s->0.is_nan()
            &&& best is Some ==> s is Some && best->0.rank() <= s->0.rank()
            &&& forall|m: int|
                0 <= m < n && (#[trigger] movers[m]).segment@ == segment ==> s is Some && !s->0.lt(
                    if mode == InvestigationMode::ConcentrationDrivers {
                        movers[m].delta_share_pp.abs_spec()
                    } else {
                        movers[m].delta_primary_metric_value.abs_spec()
                    },
                )
        }),
    decreases n,
{
    if n > 0 {
        lemma_segment_score(best, movers, mode, segment, n - 1);
        assert(!movers[n - 1].delta_share_pp.is_nan());
    }
}

proof fn lemma_root_score(
    steps: Seq<InvestigationStep>,
    mode: InvestigationMode,
    dimension: Seq<char>,
    segment: Seq<char>,
    n: int,
)
    requires
        0 <= n <= steps.len(),
        forall|i: int|
            0 <= i < steps.len() ==> drill::changes_are_numbers((#[trigger] steps[i]).movers@),
    ensures
        root_score(steps, mode, dimension, segment, n) is Some ==> !root_score(
            steps,
            mode,
            dimension,
            segment,
            n,
        )->0.is_nan(),
        not_above(
            steps,
            mode,
            dimension,
            segment,
            root_score(steps, mode, dimension, segment, n),
            n,
        ),
    decreases n,
{
    if n > 0 {
        lemma_root_score(steps, mode, dimension, segment, n - 1);
        let front = root_score(steps, mode, dimension, segment, n - 1);
        let all = root_score(steps, mode, dimension, segment, n);
        let s = steps[n - 1];
        assert(drill::changes_are_numbers(s.movers@));
        lemma_segment_score(front, s.movers@, mode, segment, s.movers@.len() as int);
    }
}

/// The score of a branch's root is that of the largest change of its segment
/// along its dimension in the whole data.
pub proof fn law_root_scores_are_the_largest(
    steps: Seq<InvestigationStep>,
    mode: InvestigationMode,
    dimension: Seq<char>,
    segment: Seq<char>,
    i: int,
    m: int,
)
    requires
        forall|i: int|
            0 <= i < steps.len() ==> drill::changes_are_numbers((#[trigger] steps[i]).movers@),
        0 <= i < steps.len(),
        steps[i].scope@.len() == 0,
        steps[i].dimension@ == dimension,
        0 <= m < steps[i].movers@.len(),
        steps[i].movers@[m].segment@ == segment,
    ensures
        ({
            let score = root_score(steps, mode, dimension, segment, steps.len() as int);
            let change = if mode == InvestigationMode::ConcentrationDrivers {
                steps[i].movers@[m].delta_share_pp
            } else {
                steps[i].movers@[m].delta_primary_metric_value
            };
            score is Some && !score->0.lt(change.abs_spec())
        }),
{
    lemma_root_score(steps, mode, dimension, segment, steps.len() as int);
    let movers = steps[i].movers@;
    assert(movers[m].segment@ == segment);
}

/// Step `p` is of the same branch as step `i` and goes deeper, or as deep with a
/// score that step `i` does not beat.
pub open spec fn outdoes(
    steps: Seq<InvestigationStep>,
    mode: InvestigationMode,
    raised: Seq<Num>,
    p: int,
    i: int,
) -> bool {
    branch_key(steps[p]) == branch_key(steps[i]) && (steps[i].depth < steps[p].depth || (
    steps[i].depth == steps[p].depth && drill::step_score(steps[i], mode).rank()
        <= raised[p].rank()))
}

/// One of the picked steps outdoes step `i`.
pub open spec fn is_outdone(
    picked: Seq<int>,
    steps: Seq<InvestigationStep>,
    mode: InvestigationMode,
    raised: Seq<Num>,
    i: int,
) -> bool {
    exists|k: int| 0 <= k < picked.len() && outdoes(steps, mode, raised, #[trigger] picked[k], i)
}

/// The scores of the steps are numbers, and what they are raised to is not below
/// them.
pub open spec fn scores_are_raised(
    steps: Seq<InvestigationStep>,
    mode: InvestigationMode,
    raised: Seq<Num>,
) -> bool {
    forall|i: int|
        0 <= i < steps.len() ==> #[trigger] is_raised(
            drill::step_score(steps[i], mode),
            raised[i],
        )
}

/// A score is a number, and what it is raised to is not below it.
pub open spec fn is_raised(score: Num, to: Num) -> bool {
    !score.is_nan() && !to.is_nan() && score.rank() <= to.rank()
}

proof fn lemma_outdone(
    steps: Seq<InvestigationStep>,
    mode: InvestigationMode,
    raised: Seq<Num>,
    new: int,
    p: int,
    i: int,
)
    requires
        outdoes(steps, mode, raised, p, i),
        branch_key(steps[new]) == branch_key(steps[p]),
        is_raised(drill::step_score(steps[new], mode), raised[new]),
        is_raised(drill::step_score(steps[p], mode), raised[p]),
    ensures
        goes_further(steps, mode, raised, new, p) ==> outdoes(steps, mode, raised, new, i),
        goes_further(steps, mode, raised, new, p) ==> outdoes(steps, mode, raised, new, new),
        !goes_further(steps, mode, raised, new, p) ==> outdoes(steps, mode, raised, p, new),
{
}

/// Of steps of one branch that go equally deep the one that is told is not beaten
/// by another: no score of theirs is above its own, raised by what counts as a
/// difference.
pub proof fn law_equally_deep_steps_are_told_by_the_stronger(
    steps: Seq<InvestigationStep>,
    mode: InvestigationMode,
    raised: Seq<Num>,
    n: int,
    i: int,
)
    requires
        1 <= i < n <= steps.len(),
        steps[i].scope@.len() > 0,
        scores_are_raised(steps, mode, raised),
    ensures
        is_outdone(furthest_steps(steps, mode, raised, n), steps, mode, raised, i),
    decreases n,
{
    let front = furthest_steps(steps, mode, raised, n - 1);
    let all = furthest_steps(steps, mode, raised, n);
    let last = n - 1;
    lemma_furthest_steps(steps, mode, raised, n - 1);
    assert(is_raised(drill::step_score(steps[last], mode), raised[last]));
    let same = of_branch(steps, branch_key(steps[last]));
    list::lemma_first_from(front, same, 0);
    if i < last {
        law_equally_deep_steps_are_told_by_the_stronger(steps, mode, raised, n - 1, i);
        let k = choose|k: int|
            0 <= k < front.len() && outdoes(steps, mode, raised, #[trigger] front[k], i);
        assert(is_raised(drill::step_score(steps[front[k]], mode), raised[front[k]]));
        if all[k] == front[k] {
            assert(outdoes(steps, mode, raised, all[k], i));
        } else {
            assert(same(front[k]));
            assert(all[k] == last);
            lemma_outdone(steps, mode, raised, last, front[k], i);
            assert(outdoes(steps, mode, raised, all[k], i));
        }
    } else {
        match list::first_from(front, same, 0) {
            None => {
                assert(all[all.len() - 1] == i);
                assert(outdoes(steps, mode, raised, all[all.len() - 1], i));
            },
            Some(at) => {
                assert(same(front[at]));
                assert(is_raised(drill::step_score(steps[front[at]], mode), raised[front[at]]));
                assert(outdoes(steps, mode, raised, front[at], front[at]));
                lemma_outdone(steps, mode, raised, last, front[at], front[at]);
                assert(outdoes(steps, mode, raised, all[at], i));
            },
        }
    }
}

proof fn lemma_edges(nodes: Seq<NodeView>, n: int)
    requires
        0 <= n <= nodes.len(),
    ensures
        forall|c: int|
            0 <= c < n && (#[trigger] nodes[c]).depth > 0 && nodes[c].scope.len() > 0
                && list::first_from(nodes, is_parent(nodes[c]), 0) is Some ==> edges_of(
                nodes,
                n,
            ).contains((list::first_from(nodes, is_parent(nodes[c]), 0)->0, c)),
    decreases n,
{
    if n > 0 {
        lemma_edges(nodes, n - 1);
        let front = edges_of(nodes, n - 1);
        let all = edges_of(nodes, n);
        assert forall|c: int|
            0 <= c < n && (#[trigger] nodes[c]).depth > 0 && nodes[c].scope.len() > 0
                && list::first_from(
                nodes,
                is_parent(nodes[c]),
                0,
            ) is Some implies all.contains((list::first_from(nodes, is_parent(nodes[c]), 0)->0, c)) by {
            let x = (list::first_from(nodes, is_parent(nodes[c]), 0)->0, c);
            if c < n - 1 {
                assert(front.contains(x));
                let k = choose|k: int| 0 <= k < front.len() && front[k] == x;
                assert(all[k] == x);
            } else {
                assert(all[all.len() - 1] == x);
            }
        }
    }
}

/// A step that narrows the scope of another by one of that other's segments is
/// drawn under it, or under one before it that it narrows the same way.
pub proof fn law_narrower_steps_are_drawn_under_wider_ones(
    nodes: Seq<NodeView>,
    p: int,
    c: int,
)
    requires
        0 <= p < nodes.len(),
        0 <= c < nodes.len(),
        0 <= nodes[p].depth,
        nodes[c].depth == nodes[p].depth + 1,
        nodes[c].scope.len() == nodes[p].scope.len() + 1,
        nodes[c].scope.take(nodes[p].scope.len() as int) == nodes[p].scope,
        nodes[c].scope[nodes[p].scope.len() as int].0 == nodes[p].dimension,
    ensures
        exists|q: int|
            0 <= q <= p && #[trigger] edges_of(nodes, nodes.len() as int).contains((q, c))
                && nodes[q].depth + 1 == nodes[c].depth && nodes[q].scope
                == nodes[p].scope && nodes[q].dimension == nodes[p].dimension,
{
    let parent = is_parent(nodes[c]);
    list::lemma_first_from(nodes, parent, 0);
    assert(parent(nodes[p]));
    match list::first_from(nodes, parent, 0) {
        Some(q) => {
            assert(parent(nodes[q]));
            if p < q {
                assert(!parent(nodes[p]));
            }
            lemma_edges(nodes, nodes.len() as int);
            assert(edges_of(nodes, nodes.len() as int).contains((q, c)));
        },
        None => {
            assert(!parent(nodes[p]));
        },
    }
}

/// The next question goes deeper exactly where the last step has a named
/// strongest segment whose change is large enough to tell.
pub proof fn law_large_changes_lead_on(step: InvestigationStep, mode: InvestigationMode)
    requires
        step.movers@.len() > 0,
        !step.movers@[0].delta_share_pp.is_nan(),
        !step.movers@[0].delta_primary_metric_value.is_nan(),
    ensures
        leads_on(step, mode) <==> step.movers@[0].segment@ != "(blank)"@ && (if mode
            == InvestigationMode::ConcentrationDrivers {
            step.movers@[0].delta_share_pp
        } else {
            step.movers@[0].delta_primary_metric_value
        }).magnitude() > SIGNAL,
{
}

} // verus!
