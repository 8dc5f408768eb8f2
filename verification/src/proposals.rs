//! From what a planner writes to the action that is carried out.

use vstd::prelude::*;

use crate::answers;
use crate::args::{InvestigateInputKind, InvestigateWorkflowArgs};
use crate::investigation::InvestigationStep;
use crate::json;
use crate::json::object_end;
use crate::planner;
use crate::planner::{
    validate_llm_planner_action, ActionView, InvestigationExecAction, LlmPlannerAction,
};
use crate::scan;
use crate::scan::join_text;
use crate::text;
use crate::text::{cat2, chars_of, copy_all, text_of};

verus! {

// ---------------------------------------------------------------------------
// Candidates
// ---------------------------------------------------------------------------

/// The JSON object that begins at position `i`.
pub open spec fn object_at(s: Seq<char>, i: int) -> Option<Seq<char>> {
    if exists|end: int| json::object_span(s, i, end) {
        Some(s.subrange(i, choose|end: int| json::object_span(s, i, end)))
    } else {
        None
    }
}

/// The JSON objects that begin before position `n`, in order; objects inside
/// others count too.
pub open spec fn objects(s: Seq<char>, n: int) -> Seq<Seq<char>>
    decreases n,
{
    if n <= 0 {
        Seq::empty()
    } else {
        match object_at(s, n - 1) {
            Some(o) => objects(s, n - 1).push(o),
            None => objects(s, n - 1),
        }
    }
}

/// A JSON object that begins at a position has one end.
pub proof fn lemma_object_span_unique(s: Seq<char>, i: int, a: int, b: int)
    requires
        json::object_span(s, i, a),
        json::object_span(s, i, b),
    ensures
        a == b,
{
    if a < b {
        assert(!json::closed_at(s, i, a));
    }
    if b < a {
        assert(!json::closed_at(s, i, b));
    }
}

/// The JSON objects in what a planner wrote, in the order in which they begin.
pub fn planner_candidates(raw: &str) -> (r: Vec<String>)
    ensures
        text::views(r@) == objects(raw@, raw@.len() as int),
{
    let v = chars_of(raw);
    let mut out: Vec<String> = Vec::new();
    let mut i: usize = 0;
    assert(text::views(out@) =~= objects(v@, 0));
    while i < v.len()
        invariant
            i <= v.len(),
            text::views(out@) == objects(v@, i as int),
        decreases v.len() - i,
    {
        let ghost before = text::views(out@);
        match object_end(&v, i) {
            Some(end) => {
                let o = text_of(&v, i, end);
                proof {
                    let e = choose|e: int| json::object_span(v@, i as int, e);
                    lemma_object_span_unique(v@, i as int, e, end as int);
                }
                out.push(o);
                assert(text::views(out@) =~= before.push(o@));
            },
            None => {},
        }
        i += 1;
    }
    out
}

// ---------------------------------------------------------------------------
// Parsed candidates
// ---------------------------------------------------------------------------

/// The candidates that could be read, in order.
pub open spec fn readable(parsed: Seq<Result<LlmPlannerAction, String>>) -> Seq<LlmPlannerAction>
    decreases parsed.len(),
{
    if parsed.len() == 0 {
        Seq::empty()
    } else {
        match parsed.last() {
            Ok(a) => readable(parsed.drop_last()).push(a),
            Err(_) => readable(parsed.drop_last()),
        }
    }
}

/// The error of the last candidate that could not be read.
pub open spec fn last_error(parsed: Seq<Result<LlmPlannerAction, String>>) -> Option<Seq<char>>
    decreases parsed.len(),
{
    if parsed.len() == 0 {
        None
    } else {
        match parsed.last() {
            Ok(_) => last_error(parsed.drop_last()),
            Err(e) => Some(e@),
        }
    }
}

/// The actions that a planner proposed, or why there are none.
pub open spec fn proposed_actions(
    whole: Option<LlmPlannerAction>,
    parsed: Seq<Result<LlmPlannerAction, String>>,
) -> Result<Seq<LlmPlannerAction>, Seq<char>> {
    match whole {
        Some(a) => Ok(seq![a]),
        None => if readable(parsed).len() > 0 {
            Ok(readable(parsed))
        } else {
            match last_error(parsed) {
                Some(e) => Err("failed to parse llm planner JSON: "@ + e),
                None => Err("llm output missing parseable JSON object"@),
            }
        },
    }
}

/// The actions that a planner proposed. `whole` is the action that its whole
/// text denotes, if it denotes one; `parsed` is what reading each candidate gave.
pub fn parse_llm_planner_actions(
    whole: Option<LlmPlannerAction>,
    parsed: Vec<Result<LlmPlannerAction, String>>,
) -> (r: Result<Vec<LlmPlannerAction>, String>)
    ensures
        match r {
            Ok(actions) => proposed_actions(whole, parsed@) == Ok::<_, Seq<char>>(actions@),
            Err(e) => proposed_actions(whole, parsed@) == Err::<Seq<LlmPlannerAction>, _>(e@),
        },
{
    match whole {
        Some(a) => {
            let mut one: Vec<LlmPlannerAction> = Vec::new();
            one.push(a);
            assert(one@ =~= seq![a]);
            return Ok(one);
        },
        None => {},
    }
    let ghost all = parsed@;
    let mut rest = parsed;
    let mut out: Vec<LlmPlannerAction> = Vec::new();
    let mut last_err: Option<String> = None;
    while rest.len() > 0
        invariant
            rest@.len() <= all.len(),
            rest@ == all.skip(all.len() - rest@.len()),
            out@ == readable(all.take(all.len() - rest@.len())),
            planner::optional_text(last_err) == last_error(all.take(all.len() - rest@.len())),
        decreases rest.len(),
    {
        let ghost done = all.len() - rest@.len();
        let one = rest.remove(0);
        assert(one == all[done]);
        assert(all.take(done + 1).drop_last() =~= all.take(done));
        assert(rest@ =~= all.skip(done + 1));
        match one {
            Ok(a) => {
                out.push(a);
            },
            Err(e) => {
                last_err = Some(e);
            },
        }
    }
    assert(all.take(all.len() as int) =~= all);
    if out.len() > 0 {
        return Ok(out);
    }
    match last_err {
        Some(e) => Err(cat2("failed to parse llm planner JSON: ", e.as_str())),
        None => Err("llm output missing parseable JSON object".to_owned()),
    }
}

/// The last action that a planner proposed.
pub fn parse_llm_planner_action(
    whole: Option<LlmPlannerAction>,
    parsed: Vec<Result<LlmPlannerAction, String>>,
) -> (r: Result<LlmPlannerAction, String>)
    ensures
        match r {
            Ok(a) => proposed_actions(whole, parsed@) is Ok && a == proposed_actions(
                whole,
                parsed@,
            )->Ok_0.last(),
            Err(e) => proposed_actions(whole, parsed@) == Err::<Seq<LlmPlannerAction>, _>(e@),
        },
{
    match parse_llm_planner_actions(whole, parsed) {
        Ok(actions) => {
            let mut list = actions;
            match list.pop() {
                Some(a) => Ok(a),
                None => Err("llm output missing parseable JSON object".to_owned()),
            }
        },
        Err(e) => Err(e),
    }
}

// ---------------------------------------------------------------------------
// Choice
// ---------------------------------------------------------------------------

/// Why the proposals from position `n` on were refused, the last one first.
pub open spec fn refusals(
    proposals: Seq<LlmPlannerAction>,
    args: InvestigateWorkflowArgs,
    dims: Seq<Seq<char>>,
    steps: Seq<InvestigationStep>,
    kind: InvestigateInputKind,
    n: int,
) -> Seq<Seq<char>>
    decreases proposals.len() - n,
{
    if n < 0 || n >= proposals.len() {
        Seq::empty()
    } else {
        let later = refusals(proposals, args, dims, steps, kind, n + 1);
        match planner::validated(proposals[n], args.metric, args.max_depth, dims, steps, kind) {
            Ok(_) => later,
            Err(e) => later.push(e),
        }
    }
}

/// `a` is what the last valid proposal, at position `i`, leads to.
pub open spec fn is_choice(
    proposals: Seq<LlmPlannerAction>,
    args: InvestigateWorkflowArgs,
    dims: Seq<Seq<char>>,
    steps: Seq<InvestigationStep>,
    kind: InvestigateInputKind,
    i: int,
    a: ActionView,
) -> bool {
    &&& 0 <= i < proposals.len()
    &&& planner::validated(proposals[i], args.metric, args.max_depth, dims, steps, kind) == Ok::<
        ActionView,
        Seq<char>,
    >(a)
    &&& forall|j: int|
        i < j < proposals.len() ==> planner::validated(
            #[trigger] proposals[j],
            args.metric,
            args.max_depth,
            dims,
            steps,
            kind,
        ) is Err
}

/// The action that the last valid proposal leads to; where none is valid, why
/// each was refused, the last one first.
pub fn choose_planner_action(
    proposals: &Vec<LlmPlannerAction>,
    args: &InvestigateWorkflowArgs,
    available_dimensions: &[String],
    steps: &[InvestigationStep],
    input_kind: InvestigateInputKind,
) -> (r: Result<InvestigationExecAction, Vec<String>>)
    ensures
        match r {
            Ok(a) => exists|i: int| #[trigger]
                is_choice(
                    proposals@,
                    *args,
                    text::views(available_dimensions@),
                    steps@,
                    input_kind,
                    i,
                    a@,
                ),
            Err(es) => text::views(es@) == refusals(
                proposals@,
                *args,
                text::views(available_dimensions@),
                steps@,
                input_kind,
                0,
            ) && es.len() == proposals.len(),
        },
{
    let ghost dims = text::views(available_dimensions@);
    let mut errors: Vec<String> = Vec::new();
    let mut i: usize = proposals.len();
    assert(text::views(errors@) =~= refusals(
        proposals@,
        *args,
        dims,
        steps@,
        input_kind,
        i as int,
    ));
    while i > 0
        invariant
            i <= proposals.len(),
            dims == text::views(available_dimensions@),
            errors.len() == proposals.len() - i,
            text::views(errors@) == refusals(
                proposals@,
                *args,
                dims,
                steps@,
                input_kind,
                i as int,
            ),
            forall|j: int|
                i <= j < proposals.len() ==> planner::validated(
                    #[trigger] proposals@[j],
                    args.metric,
                    args.max_depth,
                    dims,
                    steps@,
                    input_kind,
                ) is Err,
        decreases i,
    {
        let ghost before = text::views(errors@);
        match validate_llm_planner_action(
            &proposals[i - 1],
            args,
            available_dimensions,
            steps,
            input_kind,
        ) {
            Ok(a) => {
                assert(is_choice(proposals@, *args, dims, steps@, input_kind, i - 1, a@));
                return Ok(a);
            },
            Err(e) => {
                errors.push(e);
                assert(text::views(errors@) =~= before.push(e@));
            },
        }
        i -= 1;
    }
    Err(errors)
}

/// The message for a planner none of whose proposals is valid: the first three
/// of the reasons.
pub fn no_valid_action_message(reasons: &Vec<String>) -> (r: String)
    ensures
        r@ == "no valid llm action candidate: "@ + scan::join(
            answers::at_most(text::views(reasons@), 3),
            " | "@,
        ),
{
    let mut shown = copy_all(reasons);
    shown.truncate(3);
    assert(text::views(shown@) =~= answers::at_most(text::views(reasons@), 3));
    let list = join_text(&shown, " | ");
    cat2("no valid llm action candidate: ", list.as_str())
}

proof fn lemma_readable(parsed: Seq<Result<LlmPlannerAction, String>>)
    ensures
        (readable(parsed).len() == 0) == (forall|i: int|
            0 <= i < parsed.len() ==> (#[trigger] parsed[i]) is Err),
        readable(parsed).len() <= parsed.len(),
    decreases parsed.len(),
{
    if parsed.len() > 0 {
        lemma_readable(parsed.drop_last());
        let front = parsed.drop_last();
        if parsed.last() is Err {
            if readable(front).len() > 0 {
                let i = choose|i: int| 0 <= i < front.len() && !((#[trigger] front[i]) is Err);
                assert(!(parsed[i] is Err));
            } else {
                assert forall|i: int| 0 <= i < parsed.len() implies (#[trigger] parsed[i]) is Err by {
                    if i < front.len() {
                        assert(front[i] is Err);
                    }
                }
            }
        } else {
            assert(!(parsed[parsed.len() - 1] is Err));
        }
    }
}

/// What the planner proposed last is what can be read last of its reply: an
/// object behind which no other can be read.
pub proof fn law_the_last_readable_proposal_is_taken(
    parsed: Seq<Result<LlmPlannerAction, String>>,
    i: int,
)
    requires
        0 <= i < parsed.len(),
        parsed[i] is Ok,
        forall|j: int| i < j < parsed.len() ==> (#[trigger] parsed[j]) is Err,
    ensures
        proposed_actions(None, parsed) is Ok,
        proposed_actions(None, parsed)->Ok_0.last() == parsed[i]->Ok_0,
    decreases parsed.len(),
{
    if i < parsed.len() - 1 {
        let front = parsed.drop_last();
        assert forall|j: int| i < j < front.len() implies (#[trigger] front[j]) is Err by {
            assert(parsed[j] is Err);
        }
        assert(parsed.last() == parsed[parsed.len() - 1]);
        law_the_last_readable_proposal_is_taken(front, i);
        assert(readable(parsed) == readable(front));
    }
}

/// A reply that is a proposal as a whole is the only one; and where nothing can
/// be read, the reason told is that of the last object, if there is one.
pub proof fn law_unreadable_replies_are_refused(
    whole: LlmPlannerAction,
    parsed: Seq<Result<LlmPlannerAction, String>>,
)
    ensures
        proposed_actions(Some(whole), parsed) == Ok::<_, Seq<char>>(seq![whole]),
        (forall|i: int| 0 <= i < parsed.len() ==> (#[trigger] parsed[i]) is Err)
            ==> proposed_actions(None, parsed) == (if parsed.len() == 0 {
            Err::<Seq<LlmPlannerAction>, _>("llm output missing parseable JSON object"@)
        } else {
            Err("failed to parse llm planner JSON: "@ + parsed[parsed.len() - 1]->Err_0@)
        }),
{
    lemma_readable(parsed);
    if parsed.len() > 0 {
        assert(parsed.last() == parsed[parsed.len() - 1]);
    }
}

/// Every refused proposal is told with its own reason, the last one first.
pub proof fn law_refusals_are_told_from_the_last(
    proposals: Seq<LlmPlannerAction>,
    args: InvestigateWorkflowArgs,
    dims: Seq<Seq<char>>,
    steps: Seq<InvestigationStep>,
    kind: InvestigateInputKind,
    n: int,
)
    requires
        0 <= n <= proposals.len(),
        forall|i: int|
            n <= i < proposals.len() ==> planner::validated(
                #[trigger] proposals[i],
                args.metric,
                args.max_depth,
                dims,
                steps,
                kind,
            ) is Err,
    ensures
        refusals(proposals, args, dims, steps, kind, n).len() == proposals.len() - n,
        forall|i: int|
            n <= i < proposals.len() ==> refusals(
                proposals,
                args,
                dims,
                steps,
                kind,
                n,
            )[proposals.len() - 1 - i] == planner::validated(
                #[trigger] proposals[i],
                args.metric,
                args.max_depth,
                dims,
                steps,
                kind,
            )->Err_0,
    decreases proposals.len() - n,
{
    if n < proposals.len() {
        law_refusals_are_told_from_the_last(proposals, args, dims, steps, kind, n + 1);
        assert(planner::validated(
            proposals[n],
            args.metric,
            args.max_depth,
            dims,
            steps,
            kind,
        ) is Err);
    }
}

} // verus!
