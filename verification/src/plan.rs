//! What a table analysis looks at: groups, metrics, ranking, filters, dates.

use vstd::prelude::*;

use crate::alerts;
use crate::alerts::parse_alert_rule;
use crate::groups;
use crate::groups::should_normalize_group_column;
use crate::list;
use crate::scan;
use crate::scan::join_text;
use crate::table;
use crate::table::{
    auto_detect_groups, auto_detect_numeric_metrics, column_index, header_index_case_insensitive,
    parse_where_filters, resolve_group_name, Filter,
};
use crate::text;
use crate::text::{cat3, cat4, same};

verus! {

/// What is asked of a table.
#[derive(Clone, Debug)]
pub struct AnalysisRequest {
    pub group_by: Vec<String>,
    pub auto_group_k: usize,
    pub metrics: Vec<String>,
    pub count_only: bool,
    pub rank_by: Option<String>,
    pub where_clauses: Vec<String>,
    pub date_column: Option<String>,
}

/// What the answer looks at.
#[derive(Debug)]
pub struct AnalysisPlan {
    pub groups: Vec<String>,
    pub group_idxs: Vec<usize>,
    pub metrics: Vec<(String, usize)>,
    pub rank_metric: Option<String>,
    pub date_idx: Option<usize>,
    pub filters: Vec<Filter>,
    pub word_columns: Vec<usize>,
    pub period_groups: Vec<String>,
    pub period_group_idxs: Vec<usize>,
}

// ---------------------------------------------------------------------------
// Groups
// ---------------------------------------------------------------------------

/// The columns that names mean, or the first name that means none.
pub open spec fn columns_named(names: Seq<Seq<char>>, headers: Seq<Seq<char>>) -> Result<
    Seq<Seq<char>>,
    Seq<char>,
>
    decreases names.len(),
{
    if names.len() == 0 {
        Ok(Seq::empty())
    } else {
        match columns_named(names.drop_last(), headers) {
            Err(e) => Err(e),
            Ok(front) => match table::column_named(headers, names.last()) {
                Some(c) => Ok(front.push(c)),
                None => Err(table::no_group_column(names.last())),
            },
        }
    }
}

proof fn lemma_columns_error(names: Seq<Seq<char>>, headers: Seq<Seq<char>>, k: int)
    requires
        0 <= k <= names.len(),
        columns_named(names.take(k), headers) is Err,
    ensures
        columns_named(names, headers) == columns_named(names.take(k), headers),
    decreases names.len() - k,
{
    if k == names.len() {
        assert(names.take(k) =~= names);
    } else {
        assert(names.take(k + 1).drop_last() =~= names.take(k));
        lemma_columns_error(names, headers, k + 1);
    }
}

/// The columns by which the rows are grouped.
pub open spec fn planned_groups(
    headers: Seq<Seq<char>>,
    sample: Seq<Vec<String>>,
    req: AnalysisRequest,
) -> Result<Seq<Seq<char>>, Seq<char>> {
    let found = if req.group_by@.len() == 0 {
        Ok(table::detected_groups(sample, headers, req.auto_group_k))
    } else {
        columns_named(text::views(req.group_by@), headers)
    };
    match found {
        Err(e) => Err(e),
        Ok(gs) => if gs.len() == 0 {
            Err("no grouping columns selected or detected"@)
        } else {
            Ok(gs)
        },
    }
}

pub open spec fn names_result(r: Result<Vec<String>, String>) -> Result<Seq<Seq<char>>, Seq<char>> {
    match r {
        Ok(v) => Ok(text::views(v@)),
        Err(e) => Err(e@),
    }
}

#[verifier::loop_isolation(false)]
fn plan_groups(headers: &[String], sample: &Vec<Vec<String>>, req: &AnalysisRequest) -> (r: Result<
    Vec<String>,
    String,
>)
    ensures
        names_result(r) == planned_groups(text::views(headers@), sample@, *req),
{
    let ghost names = text::views(headers@);
    let found = if req.group_by.len() == 0 {
        auto_detect_groups(headers, sample, req.auto_group_k)
    } else {
        let ghost all = text::views(req.group_by@);
        let mut out: Vec<String> = Vec::new();
        let mut i: usize = 0;
        assert(text::views(out@) =~= Seq::empty());
        while i < req.group_by.len()
            invariant
                i <= req.group_by.len(),
                columns_named(all.take(i as int), names) == Ok::<Seq<Seq<char>>, Seq<char>>(
                    text::views(out@),
                ),
            decreases req.group_by.len() - i,
        {
            assert(all.take(i + 1).drop_last() =~= all.take(i as int));
            assert(all[i as int] == req.group_by@[i as int]@);
            let ghost before = text::views(out@);
            match resolve_group_name(req.group_by[i].as_str(), headers) {
                Ok(c) => {
                    out.push(c);
                    assert(text::views(out@) =~= before.push(c@));
                },
                Err(e) => {
                    proof {
                        lemma_columns_error(all, names, i + 1);
                    }
                    return Err(e);
                },
            }
            i += 1;
        }
        assert(all.take(all.len() as int) =~= all);
        out
    };
    if found.len() == 0 {
        assert(text::views(found@) =~= Seq::empty());
        return Err("no grouping columns selected or detected".to_owned());
    }
    Ok(found)
}

// ---------------------------------------------------------------------------
// Metrics
// ---------------------------------------------------------------------------

/// The columns with exactly these names, each with its index, or the first
/// name that no column has.
pub open spec fn metrics_named(names: Seq<Seq<char>>, headers: Seq<Seq<char>>) -> Result<
    Seq<(Seq<char>, int)>,
    Seq<char>,
>
    decreases names.len(),
{
    if names.len() == 0 {
        Ok(Seq::empty())
    } else {
        match metrics_named(names.drop_last(), headers) {
            Err(e) => Err(e),
            Ok(front) => match list::first_from(headers, table::equals(names.last()), 0) {
                Some(i) => Ok(front.push((names.last(), i))),
                None => Err("metric column '"@ + names.last() + "' not found"@),
            },
        }
    }
}

proof fn lemma_metrics_error(names: Seq<Seq<char>>, headers: Seq<Seq<char>>, k: int)
    requires
        0 <= k <= names.len(),
        metrics_named(names.take(k), headers) is Err,
    ensures
        metrics_named(names, headers) == metrics_named(names.take(k), headers),
    decreases names.len() - k,
{
    if k == names.len() {
        assert(names.take(k) =~= names);
    } else {
        assert(names.take(k + 1).drop_last() =~= names.take(k));
        lemma_metrics_error(names, headers, k + 1);
    }
}

/// The columns that are measured.
pub open spec fn planned_metrics(
    headers: Seq<Seq<char>>,
    sample: Seq<Vec<String>>,
    groups: Seq<Seq<char>>,
    req: AnalysisRequest,
) -> Result<Seq<(Seq<char>, int)>, Seq<char>> {
    if req.count_only {
        Ok(Seq::empty())
    } else if req.metrics@.len() > 0 {
        metrics_named(text::views(req.metrics@), headers)
    } else {
        let found = table::detected_metrics(sample, headers, groups, 3);
        if found.len() == 0 && sample.len() > 0 {
            Err("no numeric metric columns auto-detected; pass --metrics explicitly"@)
        } else {
            Ok(found.map_values(|c: (int, int)| (headers[c.0], c.0)))
        }
    }
}

pub open spec fn metric_views(s: Seq<(String, usize)>) -> Seq<(Seq<char>, int)> {
    Seq::new(s.len(), |i: int| (s[i].0@, s[i].1 as int))
}

pub open spec fn metrics_result(r: Result<Vec<(String, usize)>, String>) -> Result<
    Seq<(Seq<char>, int)>,
    Seq<char>,
> {
    match r {
        Ok(v) => Ok(metric_views(v@)),
        Err(e) => Err(e@),
    }
}

#[verifier::loop_isolation(false)]
fn plan_metrics(
    headers: &[String],
    sample: &Vec<Vec<String>>,
    groups: &Vec<String>,
    req: &AnalysisRequest,
) -> (r: Result<Vec<(String, usize)>, String>)
    ensures
        metrics_result(r) == planned_metrics(
            text::views(headers@),
            sample@,
            text::views(groups@),
            *req,
        ),
{
    let ghost names = text::views(headers@);
    let mut out: Vec<(String, usize)> = Vec::new();
    assert(metric_views(out@) =~= Seq::empty());
    if req.count_only {
        return Ok(out);
    }
    if req.metrics.len() == 0 {
        let found = auto_detect_numeric_metrics(headers, sample, groups.as_slice(), 3);
        proof {
            match &found {
                Ok(ms) => {
                    assert(metric_views(ms@) =~= table::detected_metrics(
                        sample@,
                        names,
                        text::views(groups@),
                        3,
                    ).map_values(|c: (int, int)| (names[c.0], c.0)));
                },
                Err(_) => {},
            }
        }
        return found;
    }
    let ghost all = text::views(req.metrics@);
    let mut i: usize = 0;
    while i < req.metrics.len()
        invariant
            i <= req.metrics.len(),
            metrics_named(all.take(i as int), names) == Ok::<Seq<(Seq<char>, int)>, Seq<char>>(
                metric_views(out@),
            ),
        decreases req.metrics.len() - i,
    {
        assert(all.take(i + 1).drop_last() =~= all.take(i as int));
        assert(all[i as int] == req.metrics@[i as int]@);
        let ghost before = metric_views(out@);
        match column_index(headers, req.metrics[i].as_str()) {
            Some(idx) => {
                out.push((req.metrics[i].clone(), idx));
                assert(metric_views(out@) =~= before.push((all[i as int], idx as int)));
            },
            None => {
                proof {
                    lemma_metrics_error(all, names, i + 1);
                }
                return Err(cat3("metric column '", req.metrics[i].as_str(), "' not found"));
            },
        }
        i += 1;
    }
    assert(all.take(all.len() as int) =~= all);
    Ok(out)
}

/// The names of metrics.
pub open spec fn metric_names(metrics: Seq<(Seq<char>, int)>) -> Seq<Seq<char>> {
    metrics.map_values(|m: (Seq<char>, int)| m.0)
}

/// The metric by which segments are ranked, or why the asked one cannot be it.
pub open spec fn planned_rank(req: AnalysisRequest, metrics: Seq<(Seq<char>, int)>) -> Result<
    Option<Seq<char>>,
    Seq<char>,
> {
    match req.rank_by {
        None => Ok(None),
        Some(rb) => if req.count_only {
            if rb@ == "count"@ {
                Ok(None)
            } else {
                Err(
                    "--count-only supports ranking by count only; remove --rank-by or use --rank-by count"@,
                )
            }
        } else if metric_names(metrics).contains(rb@) {
            Ok(Some(rb@))
        } else {
            Err(
                "rank metric '"@ + rb@ + "' not found. Available metrics: "@ + scan::join(
                    metric_names(metrics),
                    ", "@,
                ),
            )
        },
    }
}

/// The names of metrics.
pub fn names_of_metrics(metrics: &Vec<(String, usize)>) -> (r: Vec<String>)
    ensures
        text::views(r@) == metric_names(metric_views(metrics@)),
{
    let mut out: Vec<String> = Vec::new();
    let mut i: usize = 0;
    while i < metrics.len()
        invariant
            i <= metrics.len(),
            out.len() == i,
            forall|j: int| 0 <= j < i ==> (#[trigger] out@[j])@ == metrics@[j].0@,
        decreases metrics.len() - i,
    {
        out.push(metrics[i].0.clone());
        i += 1;
    }
    assert(text::views(out@) =~= metric_names(metric_views(metrics@)));
    out
}

fn plan_rank(req: &AnalysisRequest, metrics: &Vec<(String, usize)>) -> (r: Result<
    Option<String>,
    String,
>)
    ensures
        match r {
            Ok(m) => planned_rank(*req, metric_views(metrics@)) == Ok::<
                Option<Seq<char>>,
                Seq<char>,
            >(crate::planner::optional_text(m)),
            Err(e) => planned_rank(*req, metric_views(metrics@)) == Err::<
                Option<Seq<char>>,
                Seq<char>,
            >(e@),
        },
{
    let rb = match &req.rank_by {
        Some(s) => s,
        None => {
            return Ok(None);
        },
    };
    if req.count_only {
        return if same(rb.as_str(), "count") {
            Ok(None)
        } else {
            Err(
                "--count-only supports ranking by count only; remove --rank-by or use --rank-by count".to_owned(),
            )
        };
    }
    let names = names_of_metrics(metrics);
    if crate::drill::among(names.as_slice(), rb.as_str()) {
        return Ok(Some(rb.clone()));
    }
    let list = join_text(&names, ", ");
    Err(
        cat4(
            "rank metric '",
            rb.as_str(),
            "' not found. Available metrics: ",
            list.as_str(),
        ),
    )
}

// ---------------------------------------------------------------------------
// Indices
// ---------------------------------------------------------------------------

/// The index of each named column.
pub open spec fn indices_of(names: Seq<Seq<char>>, headers: Seq<Seq<char>>) -> Seq<int> {
    names.map_values(
        |n: Seq<char>|
            match list::first_from(headers, table::equals(n), 0) {
                Some(i) => i,
                None => -1int,
            },
    )
}

pub open spec fn index_views(s: Seq<usize>) -> Seq<int> {
    Seq::new(s.len(), |i: int| s[i] as int)
}

/// All names are columns.
pub open spec fn all_columns(names: Seq<Seq<char>>, headers: Seq<Seq<char>>) -> bool {
    forall|i: int| 0 <= i < names.len() ==> headers.contains(#[trigger] names[i])
}

proof fn lemma_columns_exist(names: Seq<Seq<char>>, headers: Seq<Seq<char>>)
    ensures
        match columns_named(names, headers) {
            Ok(gs) => all_columns(gs, headers),
            Err(_) => true,
        },
    decreases names.len(),
{
    if names.len() > 0 {
        lemma_columns_exist(names.drop_last(), headers);
        let n = text::trim(names.last());
        list::lemma_first_from(headers, table::resembles(n), 0);
    }
}

proof fn lemma_candidates_exist(
    rows: Seq<Vec<String>>,
    headers: Seq<Seq<char>>,
    names: Seq<Seq<char>>,
    sample: int,
)
    ensures
        forall|i: int|
            0 <= i < table::group_candidates(rows, headers, names, sample).len()
                ==> names.contains(
                (#[trigger] table::group_candidates(rows, headers, names, sample)[i]).0,
            ),
    decreases names.len(),
{
    if names.len() > 0 {
        let front = names.drop_last();
        lemma_candidates_exist(rows, headers, front, sample);
        let all = table::group_candidates(rows, headers, names, sample);
        let before = table::group_candidates(rows, headers, front, sample);
        assert forall|i: int| 0 <= i < all.len() implies names.contains((#[trigger] all[i]).0) by {
            if i < before.len() {
                assert(all[i] == before[i]);
                let j = choose|j: int| 0 <= j < front.len() && front[j] == before[i].0;
                assert(names[j] == all[i].0);
            } else {
                assert(names[names.len() - 1] == all[i].0);
            }
        }
    }
}

proof fn lemma_groups_exist(
    headers: Seq<Seq<char>>,
    sample: Seq<Vec<String>>,
    req: AnalysisRequest,
)
    ensures
        match planned_groups(headers, sample, req) {
            Ok(gs) => all_columns(gs, headers),
            Err(_) => true,
        },
{
    lemma_columns_exist(text::views(req.group_by@), headers);
    if req.group_by@.len() == 0 {
        let unique = list::distinct_by(headers, |h: Seq<char>| h);
        let n = table::sample_size(sample, table::SAMPLED_ROWS);
        let found = table::group_candidates(sample, headers, unique, n);
        lemma_candidates_exist(sample, headers, unique, n);
        list::lemma_distinct_by(headers, |h: Seq<char>| h);
        crate::order::lemma_sorted_permutation(found, table::fewer_values());
        let ranked = crate::order::sorted(found, table::fewer_values());
        let gs = table::detected_groups(sample, headers, req.auto_group_k);
        assert forall|i: int| 0 <= i < gs.len() implies headers.contains(#[trigger] gs[i]) by {
            broadcast use vstd::seq_lib::group_to_multiset_ensures;

            assert(ranked.to_multiset().count(ranked[i]) > 0);
            assert(found.contains(ranked[i]));
            let j = choose|j: int| 0 <= j < found.len() && found[j] == ranked[i];
            assert(unique.contains(found[j].0));
            let m = choose|m: int| 0 <= m < unique.len() && unique[m] == found[j].0;
            assert(headers.contains(unique[m]));
        }
    }
}

fn find_indices(names: &Vec<String>, headers: &[String]) -> (r: Vec<usize>)
    requires
        all_columns(text::views(names@), text::views(headers@)),
    ensures
        index_views(r@) == indices_of(text::views(names@), text::views(headers@)),
        r.len() == names.len(),
        forall|i: int| 0 <= i < r.len() ==> #[trigger] r@[i] < headers.len(),
{
    let ghost all = text::views(names@);
    let ghost hs = text::views(headers@);
    let mut out: Vec<usize> = Vec::new();
    let mut i: usize = 0;
    while i < names.len()
        invariant
            i <= names.len(),
            out.len() == i,
            all == text::views(names@),
            hs == text::views(headers@),
            all_columns(all, hs),
            forall|j: int| 0 <= j < i ==> #[trigger] out@[j] == indices_of(all, hs)[j],
            forall|j: int| 0 <= j < i ==> #[trigger] out@[j] < headers.len(),
        decreases names.len() - i,
    {
        proof {
            assert(hs.contains(all[i as int]));
            list::lemma_first_from(hs, table::equals(all[i as int]), 0);
            let j = choose|j: int| 0 <= j < hs.len() && hs[j] == all[i as int];
            assert(table::equals(all[i as int])(hs[j]));
        }
        let idx: usize = match column_index(headers, names[i].as_str()) {
            Some(k) => k,
            None => 0,
        };
        out.push(idx);
        i += 1;
    }
    assert(index_views(out@) =~= indices_of(all, hs));
    out
}

/// The column of the dates: of exactly that name, else the first that differs
/// only in case.
pub open spec fn planned_date(req: AnalysisRequest, headers: Seq<Seq<char>>) -> Result<
    Option<int>,
    Seq<char>,
> {
    match req.date_column {
        None => Ok(None),
        Some(c) => match list::first_from(headers, table::equals(c@), 0) {
            Some(i) => Ok(Some(i)),
            None => match list::first_from(headers, table::resembles(c@), 0) {
                Some(i) => Ok(Some(i)),
                None => Err("date column '"@ + c@ + "' not found"@),
            },
        },
    }
}

fn plan_date(req: &AnalysisRequest, headers: &[String]) -> (r: Result<Option<usize>, String>)
    ensures
        match r {
            Ok(None) => planned_date(*req, text::views(headers@)) == Ok::<
                Option<int>,
                Seq<char>,
            >(None),
            Ok(Some(i)) => planned_date(*req, text::views(headers@)) == Ok::<
                Option<int>,
                Seq<char>,
            >(Some(i as int)) && i < headers.len(),
            Err(e) => planned_date(*req, text::views(headers@)) == Err::<
                Option<int>,
                Seq<char>,
            >(e@),
        },
{
    match &req.date_column {
        None => Ok(None),
        Some(c) => match column_index(headers, c.as_str()) {
            Some(i) => Ok(Some(i)),
            None => match header_index_case_insensitive(headers, c.as_str()) {
                Some(i) => Ok(Some(i)),
                None => Err(cat3("date column '", c.as_str(), "' not found")),
            },
        },
    }
}

/// The positions of the group columns that hold names or titles.
pub open spec fn word_positions(groups: Seq<Seq<char>>, n: int) -> Seq<int>
    decreases n,
{
    if n <= 0 {
        Seq::empty()
    } else if groups::is_name_column(text::lower_case(groups[n - 1])) {
        word_positions(groups, n - 1).push(n - 1)
    } else {
        word_positions(groups, n - 1)
    }
}

fn find_word_positions(groups: &Vec<String>) -> (r: Vec<usize>)
    ensures
        index_views(r@) == word_positions(text::views(groups@), groups@.len() as int),
        forall|i: int| 0 <= i < r.len() ==> #[trigger] r@[i] < groups.len(),
{
    let ghost all = text::views(groups@);
    let mut out: Vec<usize> = Vec::new();
    let mut i: usize = 0;
    assert(index_views(out@) =~= Seq::empty());
    while i < groups.len()
        invariant
            i <= groups.len(),
            all == text::views(groups@),
            index_views(out@) == word_positions(all, i as int),
            forall|j: int| 0 <= j < out.len() ==> #[trigger] out@[j] < groups.len(),
        decreases groups.len() - i,
    {
        assert(all[i as int] == groups@[i as int]@);
        let ghost before = index_views(out@);
        if should_normalize_group_column(groups[i].as_str()) {
            out.push(i);
            assert(index_views(out@) =~= before.push(i as int));
        }
        i += 1;
    }
    out
}

/// The positions of the group columns other than the date column, among the first `n`.
pub open spec fn dateless_positions(idxs: Seq<int>, date: Option<int>, n: int) -> Seq<int>
    decreases n,
{
    if n <= 0 {
        Seq::empty()
    } else if date == Some(idxs[n - 1]) {
        dateless_positions(idxs, date, n - 1)
    } else {
        dateless_positions(idxs, date, n - 1).push(n - 1)
    }
}

/// The positions of the columns by which periods are compared: the group
/// columns without the date column, but all of them where nothing would be left.
pub open spec fn period_positions(idxs: Seq<int>, date: Option<int>) -> Seq<int> {
    let found = dateless_positions(idxs, date, idxs.len() as int);
    if found.len() == 0 {
        Seq::new(idxs.len(), |i: int| i)
    } else {
        found
    }
}

fn find_period_positions(idxs: &Vec<usize>, date: Option<usize>) -> (r: Vec<usize>)
    ensures
        index_views(r@) == period_positions(
            index_views(idxs@),
            match date {
                Some(d) => Some(d as int),
                None => None,
            },
        ),
        forall|i: int| 0 <= i < r.len() ==> #[trigger] r@[i] < idxs.len(),
{
    let ghost all = index_views(idxs@);
    let ghost day: Option<int> = match date {
        Some(d) => Some(d as int),
        None => None,
    };
    let mut out: Vec<usize> = Vec::new();
    let mut i: usize = 0;
    assert(index_views(out@) =~= Seq::empty());
    while i < idxs.len()
        invariant
            i <= idxs.len(),
            all == index_views(idxs@),
            day == (match date {
                Some(d) => Some(d as int),
                None => None,
            }),
            index_views(out@) == dateless_positions(all, day, i as int),
            forall|j: int| 0 <= j < out.len() ==> #[trigger] out@[j] < idxs.len(),
        decreases idxs.len() - i,
    {
        let ghost before = index_views(out@);
        let is_date: bool = match date {
            Some(d) => idxs[i] == d,
            None => false,
        };
        if !is_date {
            out.push(i);
            assert(index_views(out@) =~= before.push(i as int));
        }
        i += 1;
    }
    if out.len() == 0 {
        assert(index_views(out@) =~= Seq::empty());
        let mut k: usize = 0;
        while k < idxs.len()
            invariant
                k <= idxs.len(),
                out.len() == k,
                forall|j: int| 0 <= j < k ==> #[trigger] out@[j] == j,
            decreases idxs.len() - k,
        {
            out.push(k);
            k += 1;
        }
        assert(index_views(out@) =~= Seq::new(all.len(), |i: int| i));
    }
    out
}

// ---------------------------------------------------------------------------
// The plan
// ---------------------------------------------------------------------------

/// Why a request cannot be answered: the first thing that is wrong with it.
pub open spec fn plan_error(
    headers: Seq<Seq<char>>,
    sample: Seq<Vec<String>>,
    req: AnalysisRequest,
) -> Option<Seq<char>> {
    match planned_groups(headers, sample, req) {
        Err(e) => Some(e),
        Ok(gs) => match planned_metrics(headers, sample, gs, req) {
            Err(e) => Some(e),
            Ok(ms) => match planned_rank(req, ms) {
                Err(e) => Some(e),
                Ok(_) => match planned_date(req, headers) {
                    Err(e) => Some(e),
                    Ok(_) => match table::clause_filters(
                        text::views(req.where_clauses@),
                        headers,
                    ) {
                        Err(e) => Some(e),
                        Ok(_) => None,
                    },
                },
            },
        },
    }
}

/// `plan` is what answering the request looks at.
pub open spec fn is_plan(
    plan: AnalysisPlan,
    headers: Seq<Seq<char>>,
    sample: Seq<Vec<String>>,
    req: AnalysisRequest,
) -> bool {
    let gs = planned_groups(headers, sample, req)->Ok_0;
    let ms = planned_metrics(headers, sample, gs, req)->Ok_0;
    let date = planned_date(req, headers)->Ok_0;
    let idxs = indices_of(gs, headers);
    let positions = period_positions(idxs, date);
    &&& text::views(plan.groups@) == gs
    &&& index_views(plan.group_idxs@) == idxs
    &&& metric_views(plan.metrics@) == ms
    &&& crate::planner::optional_text(plan.rank_metric) == planned_rank(req, ms)->Ok_0
    &&& date == (match plan.date_idx {
        Some(i) => Some(i as int),
        None => None::<int>,
    })
    &&& table::filter_views(plan.filters@) == table::clause_filters(
        text::views(req.where_clauses@),
        headers,
    )->Ok_0
    &&& index_views(plan.word_columns@) == word_positions(gs, gs.len() as int)
    &&& text::views(plan.period_groups@) == positions.map_values(|i: int| gs[i])
    &&& index_views(plan.period_group_idxs@) == positions.map_values(|i: int| idxs[i])
}

/// The indices of a plan are in range.
pub open spec fn plan_in_range(plan: AnalysisPlan) -> bool {
    &&& plan.groups.len() == plan.group_idxs.len()
    &&& plan.period_groups.len() == plan.period_group_idxs.len()
    &&& forall|i: int|
        0 <= i < plan.word_columns.len() ==> #[trigger] plan.word_columns@[i]
            < plan.group_idxs.len()
}

/// Settles what answering a request looks at: headers and a sample of rows
/// decide what the request leaves open.
pub fn plan_analysis(headers: &[String], sample: &Vec<Vec<String>>, req: &AnalysisRequest) -> (r:
    Result<AnalysisPlan, String>)
    ensures
        match r {
            Ok(plan) => plan_error(text::views(headers@), sample@, *req) is None && is_plan(
                plan,
                text::views(headers@),
                sample@,
                *req,
            ) && plan_in_range(plan),
            Err(e) => plan_error(text::views(headers@), sample@, *req) == Some(e@),
        },
{
    let ghost hs = text::views(headers@);
    let groups = match plan_groups(headers, sample, req) {
        Ok(g) => g,
        Err(e) => {
            return Err(e);
        },
    };
    proof {
        lemma_groups_exist(hs, sample@, *req);
    }
    let metrics = match plan_metrics(headers, sample, &groups, req) {
        Ok(m) => m,
        Err(e) => {
            return Err(e);
        },
    };
    let rank_metric = match plan_rank(req, &metrics) {
        Ok(m) => m,
        Err(e) => {
            return Err(e);
        },
    };
    let group_idxs = find_indices(&groups, headers);
    let date_idx = match plan_date(req, headers) {
        Ok(d) => d,
        Err(e) => {
            return Err(e);
        },
    };
    let filters = match parse_where_filters(req.where_clauses.as_slice(), headers) {
        Ok(f) => f,
        Err(e) => {
            return Err(e);
        },
    };
    let word_columns = find_word_positions(&groups);
    let positions = find_period_positions(&group_idxs, date_idx);
    let mut period_groups: Vec<String> = Vec::new();
    let mut period_group_idxs: Vec<usize> = Vec::new();
    let mut i: usize = 0;
    while i < positions.len()
        invariant
            i <= positions.len(),
            period_groups.len() == i,
            period_group_idxs.len() == i,
            groups.len() == group_idxs.len(),
            forall|j: int| 0 <= j < positions.len() ==> #[trigger] positions@[j] < group_idxs.len(),
            forall|j: int|
                0 <= j < i ==> (#[trigger] period_groups@[j])@ == groups@[positions@[j] as int]@,
            forall|j: int|
                0 <= j < i ==> #[trigger] period_group_idxs@[j] == group_idxs@[positions@[j] as int],
        decreases positions.len() - i,
    {
        let p: usize = positions[i];
        period_groups.push(groups[p].clone());
        period_group_idxs.push(group_idxs[p]);
        i += 1;
    }
    proof {
        let gs = text::views(groups@);
        let idxs = indices_of(gs, hs);
        let ps = index_views(positions@);
        assert(text::views(period_groups@) =~= ps.map_values(|i: int| gs[i]));
        assert forall|j: int| 0 <= j < ps.len() implies index_views(period_group_idxs@)[j]
            == ps.map_values(|i: int| idxs[i])[j] by {
            assert(index_views(group_idxs@)[positions@[j] as int] == idxs[positions@[j] as int]);
        }
        assert(index_views(period_group_idxs@) =~= ps.map_values(|i: int| idxs[i]));
    }
    Ok(
        AnalysisPlan {
            groups,
            group_idxs,
            metrics,
            rank_metric,
            date_idx,
            filters,
            word_columns,
            period_groups,
            period_group_idxs,
        },
    )
}

// ---------------------------------------------------------------------------
// Checking a request alone
// ---------------------------------------------------------------------------

/// The first alert rule that cannot be read, as a message.
pub open spec fn rule_error(rules: Seq<Seq<char>>) -> Option<Seq<char>>
    decreases rules.len(),
{
    if rules.len() == 0 {
        None
    } else {
        match rule_error(rules.drop_last()) {
            Some(e) => Some(e),
            None => match alerts::read_rule(rules.last()) {
                Err(e) => Some(e),
                Ok(_) => None,
            },
        }
    }
}

/// Why a request does not pass a check: as for a plan, but that alert rules
/// are read before the date column is looked for.
pub open spec fn check_error(
    headers: Seq<Seq<char>>,
    sample: Seq<Vec<String>>,
    req: AnalysisRequest,
    rules: Seq<Seq<char>>,
) -> Option<Seq<char>> {
    match planned_groups(headers, sample, req) {
        Err(e) => Some(e),
        Ok(gs) => match planned_metrics(headers, sample, gs, req) {
            Err(e) => Some(e),
            Ok(ms) => match planned_rank(req, ms) {
                Err(e) => Some(e),
                Ok(_) => match table::clause_filters(text::views(req.where_clauses@), headers) {
                    Err(e) => Some(e),
                    Ok(_) => match rule_error(rules) {
                        Some(e) => Some(e),
                        None => match req.date_column {
                            None => None,
                            Some(c) => if table::column_named(headers, c@) is Some {
                                None
                            } else {
                                Some(table::no_group_column(c@))
                            },
                        },
                    },
                },
            },
        },
    }
}

/// What a checked request is known to look at.
#[derive(Debug)]
pub struct CheckedRequest {
    pub groups: Vec<String>,
    pub metrics: Vec<(String, usize)>,
    pub filters: Vec<Filter>,
}

proof fn lemma_rule_error(rules: Seq<Seq<char>>, k: int)
    requires
        0 <= k <= rules.len(),
        rule_error(rules.take(k)) is Some,
    ensures
        rule_error(rules) == rule_error(rules.take(k)),
    decreases rules.len() - k,
{
    if k == rules.len() {
        assert(rules.take(k) =~= rules);
    } else {
        assert(rules.take(k + 1).drop_last() =~= rules.take(k));
        lemma_rule_error(rules, k + 1);
    }
}

/// Checks a request without answering it.
#[verifier::loop_isolation(false)]
pub fn check_analysis(
    headers: &[String],
    sample: &Vec<Vec<String>>,
    req: &AnalysisRequest,
    alert_rules: &[String],
) -> (r: Result<CheckedRequest, String>)
    ensures
        match r {
            Ok(c) => check_error(
                text::views(headers@),
                sample@,
                *req,
                text::views(alert_rules@),
            ) is None && planned_groups(text::views(headers@), sample@, *req) == Ok::<
                Seq<Seq<char>>,
                Seq<char>,
            >(text::views(c.groups@)) && planned_metrics(
                text::views(headers@),
                sample@,
                text::views(c.groups@),
                *req,
            ) == Ok::<Seq<(Seq<char>, int)>, Seq<char>>(metric_views(c.metrics@))
                && table::clause_filters(
                text::views(req.where_clauses@),
                text::views(headers@),
            ) == Ok::<Seq<table::FilterView>, Seq<char>>(table::filter_views(c.filters@)),
            Err(e) => check_error(
                text::views(headers@),
                sample@,
                *req,
                text::views(alert_rules@),
            ) == Some(e@),
        },
{
    let groups = match plan_groups(headers, sample, req) {
        Ok(g) => g,
        Err(e) => {
            return Err(e);
        },
    };
    let metrics = match plan_metrics(headers, sample, &groups, req) {
        Ok(m) => m,
        Err(e) => {
            return Err(e);
        },
    };
    match plan_rank(req, &metrics) {
        Ok(_) => {},
        Err(e) => {
            return Err(e);
        },
    }
    let filters = match parse_where_filters(req.where_clauses.as_slice(), headers) {
        Ok(f) => f,
        Err(e) => {
            return Err(e);
        },
    };
    let ghost rules = text::views(alert_rules@);
    let mut i: usize = 0;
    while i < alert_rules.len()
        invariant
            i <= alert_rules.len(),
            rule_error(rules.take(i as int)) is None,
        decreases alert_rules.len() - i,
    {
        assert(rules.take(i + 1).drop_last() =~= rules.take(i as int));
        assert(rules[i as int] == alert_rules@[i as int]@);
        match parse_alert_rule(alert_rules[i].as_str()) {
            Ok(_) => {},
            Err(e) => {
                proof {
                    lemma_rule_error(rules, i + 1);
                }
                return Err(e);
            },
        }
        i += 1;
    }
    assert(rules.take(rules.len() as int) =~= rules);
    match &req.date_column {
        Some(c) => match resolve_group_name(c.as_str(), headers) {
            Ok(_) => {},
            Err(e) => {
                return Err(e);
            },
        },
        None => {},
    }
    Ok(CheckedRequest { groups, metrics, filters })
}

/// Where only records are counted, no metric is looked at and none ranks.
pub proof fn law_counting_takes_no_metrics(
    plan: AnalysisPlan,
    headers: Seq<Seq<char>>,
    sample: Seq<Vec<String>>,
    req: AnalysisRequest,
)
    requires
        plan_error(headers, sample, req) is None,
        is_plan(plan, headers, sample, req),
        req.count_only,
    ensures
        plan.metrics@.len() == 0,
        plan.rank_metric is None,
{
    assert(metric_views(plan.metrics@).len() == plan.metrics@.len());
}

/// The groups that are asked for by name are columns of the table, one for each
/// name and in that order; a name that no column bears is refused.
pub proof fn law_named_groups_are_columns(names: Seq<Seq<char>>, headers: Seq<Seq<char>>)
    ensures
        match columns_named(names, headers) {
            Ok(gs) => gs.len() == names.len() && forall|i: int|
                0 <= i < names.len() ==> headers.contains(#[trigger] gs[i]) && text::lower(gs[i])
                    == text::lower(text::trim(names[i])),
            Err(_) => exists|i: int|
                0 <= i < names.len() && table::column_named(headers, #[trigger] names[i]) is None,
        },
    decreases names.len(),
{
    if names.len() > 0 {
        let front = names.drop_last();
        let last = names.len() - 1;
        law_named_groups_are_columns(front, headers);
        table::law_names_mean_their_columns(headers, names[last]);
        match columns_named(front, headers) {
            Err(_) => {
                let i = choose|i: int|
                    0 <= i < front.len() && table::column_named(
                        headers,
                        #[trigger] front[i],
                    ) is None;
                assert(names[i] == front[i]);
            },
            Ok(fs) => {
                match columns_named(names, headers) {
                    Ok(gs) => {
                        assert forall|i: int| 0 <= i < names.len() implies headers.contains(
                            #[trigger] gs[i],
                        ) && text::lower(gs[i]) == text::lower(text::trim(names[i])) by {
                            if i < last {
                                assert(gs[i] == fs[i]);
                                assert(front[i] == names[i]);
                            }
                        }
                    },
                    Err(_) => {
                        assert(table::column_named(headers, names[last]) is None);
                    },
                }
            },
        }
    }
}

/// The metrics that are asked for by name stand at the place of the first column
/// of exactly that name.
pub proof fn law_named_metrics_stand_at_their_place(
    names: Seq<Seq<char>>,
    headers: Seq<Seq<char>>,
)
    ensures
        match metrics_named(names, headers) {
            Ok(ms) => ms.len() == names.len() && forall|i: int|
                0 <= i < names.len() ==> (#[trigger] ms[i]).0 == names[i] && 0 <= ms[i].1
                    < headers.len() && headers[ms[i].1] == names[i],
            Err(_) => exists|i: int|
                0 <= i < names.len() && !headers.contains(#[trigger] names[i]),
        },
    decreases names.len(),
{
    if names.len() > 0 {
        let front = names.drop_last();
        let last = names.len() - 1;
        law_named_metrics_stand_at_their_place(front, headers);
        list::lemma_first_from(headers, table::equals(names[last]), 0);
        match metrics_named(front, headers) {
            Err(_) => {
                let i = choose|i: int| 0 <= i < front.len() && !headers.contains(#[trigger] front[i]);
                assert(names[i] == front[i]);
            },
            Ok(fs) => {
                match metrics_named(names, headers) {
                    Ok(ms) => {
                        let at = list::first_from(headers, table::equals(names[last]), 0)->0;
                        assert(table::equals(names[last])(headers[at]));
                        assert forall|i: int| 0 <= i < names.len() implies (#[trigger] ms[i]).0
                            == names[i] && 0 <= ms[i].1 < headers.len() && headers[ms[i].1]
                            == names[i] by {
                            if i < last {
                                assert(ms[i] == fs[i]);
                                assert(front[i] == names[i]);
                            }
                        }
                    },
                    Err(_) => {
                        if headers.contains(names[last]) {
                            let k = choose|k: int|
                                0 <= k < headers.len() && headers[k] == names[last];
                            assert(!table::equals(names[last])(headers[k]));
                        }
                    },
                }
            },
        }
    }
}

/// The metric that segments are ranked by is the one asked for, and it is one of
/// the metrics; another one is refused, and where records are only counted there
/// is none.
pub proof fn law_the_rank_is_one_of_the_metrics(
    req: AnalysisRequest,
    metrics: Seq<(Seq<char>, int)>,
)
    ensures
        match planned_rank(req, metrics) {
            Ok(Some(m)) => req.rank_by is Some && req.rank_by->0@ == m && !req.count_only
                && exists|i: int| 0 <= i < metrics.len() && (#[trigger] metrics[i]).0 == m,
            Ok(None) => req.rank_by is None || (req.count_only && req.rank_by->0@ == "count"@),
            Err(_) => req.rank_by is Some && if req.count_only {
                req.rank_by->0@ != "count"@
            } else {
                forall|i: int| 0 <= i < metrics.len() ==> (#[trigger] metrics[i]).0
                    != req.rank_by->0@
            },
        },
{
    if let Some(rb) = req.rank_by {
        let names = metric_names(metrics);
        if names.contains(rb@) {
            let i = choose|i: int| 0 <= i < names.len() && names[i] == rb@;
            assert(metrics[i].0 == rb@);
        } else {
            assert forall|i: int| 0 <= i < metrics.len() implies (#[trigger] metrics[i]).0
                != rb@ by {
                assert(names[i] == metrics[i].0);
            }
        }
    }
}

/// The date column is the one of exactly the name that is asked for, or else the
/// first whose name differs from it in case alone.
pub proof fn law_the_date_column_bears_its_name(
    req: AnalysisRequest,
    headers: Seq<Seq<char>>,
)
    requires
        req.date_column is Some,
    ensures
        ({
            let name = req.date_column->0@;
            match planned_date(req, headers) {
                Ok(Some(i)) => {
                    &&& 0 <= i < headers.len()
                    &&& text::same_ignoring_case(headers[i], name)
                    &&& headers.contains(name) ==> headers[i] == name
                },
                Ok(None) => false,
                Err(_) => forall|i: int|
                    0 <= i < headers.len() ==> !text::same_ignoring_case(
                        #[trigger] headers[i],
                        name,
                    ),
            }
        }),
{
    let name = req.date_column->0@;
    list::lemma_first_from(headers, table::equals(name), 0);
    list::lemma_first_from(headers, table::resembles(name), 0);
    match list::first_from(headers, table::equals(name), 0) {
        Some(i) => {
            assert(table::equals(name)(headers[i]));
        },
        None => {
            if headers.contains(name) {
                let k = choose|k: int| 0 <= k < headers.len() && headers[k] == name;
                assert(!table::equals(name)(headers[k]));
            }
            match list::first_from(headers, table::resembles(name), 0) {
                Some(i) => {
                    assert(table::resembles(name)(headers[i]));
                },
                None => {
                    assert forall|i: int| 0 <= i < headers.len() implies !text::same_ignoring_case(
                        #[trigger] headers[i],
                        name,
                    ) by {
                        assert(!table::resembles(name)(headers[i]));
                    }
                },
            }
        },
    }
}

proof fn lemma_dateless(idxs: Seq<int>, date: Option<int>, n: int)
    requires
        0 <= n <= idxs.len(),
    ensures
        forall|p: int| #[trigger]
            dateless_positions(idxs, date, n).contains(p) <==> 0 <= p < n && date != Some(idxs[p]),
        forall|i: int, j: int|
            0 <= i < j < dateless_positions(idxs, date, n).len() ==> #[trigger] dateless_positions(
                idxs,
                date,
                n,
            )[i] < #[trigger] dateless_positions(idxs, date, n)[j],
    decreases n,
{
    if n > 0 {
        lemma_dateless(idxs, date, n - 1);
        let front = dateless_positions(idxs, date, n - 1);
        let all = dateless_positions(idxs, date, n);
        assert forall|i: int| 0 <= i < front.len() implies #[trigger] front[i] < n - 1 by {
            assert(front.contains(front[i]));
        }
        assert forall|p: int| #[trigger] all.contains(p) <==> 0 <= p < n && date != Some(
            idxs[p],
        ) by {
            if all.contains(p) {
                let k = choose|k: int| 0 <= k < all.len() && all[k] == p;
                if k < front.len() {
                    assert(front[k] == p);
                    assert(front.contains(p));
                }
            }
            if 0 <= p < n && date != Some(idxs[p]) {
                if p < n - 1 {
                    assert(front.contains(p));
                    let k = choose|k: int| 0 <= k < front.len() && front[k] == p;
                    assert(all[k] == p);
                } else {
                    assert(all[all.len() - 1] == p);
                }
            }
        }
    }
}

/// Periods are compared by the groups other than the date, in their order, and by
/// all groups where the date is the only one.
pub proof fn law_periods_are_compared_by_the_other_groups(idxs: Seq<int>, date: Option<int>)
    ensures
        ({
            let positions = period_positions(idxs, date);
            let others = exists|i: int| 0 <= i < idxs.len() && date != Some(#[trigger] idxs[i]);
            &&& forall|p: int| #[trigger]
                positions.contains(p) <==> 0 <= p < idxs.len() && (others ==> date != Some(idxs[p]))
            &&& forall|i: int, j: int|
                0 <= i < j < positions.len() ==> #[trigger] positions[i] < #[trigger] positions[j]
        }),
{
    let found = dateless_positions(idxs, date, idxs.len() as int);
    let positions = period_positions(idxs, date);
    lemma_dateless(idxs, date, idxs.len() as int);
    if exists|i: int| 0 <= i < idxs.len() && date != Some(#[trigger] idxs[i]) {
        let i = choose|i: int| 0 <= i < idxs.len() && date != Some(#[trigger] idxs[i]);
        assert(found.contains(i));
    } else {
        if found.len() > 0 {
            assert(found.contains(found[0]));
        }
        assert forall|p: int| #[trigger] positions.contains(p) <==> 0 <= p < idxs.len() by {
            if 0 <= p < idxs.len() {
                assert(positions[p] == p);
            }
        }
    }
}

/// The rules are accepted exactly where each of them can be read.
pub proof fn law_all_rules_have_to_be_readable(rules: Seq<Seq<char>>)
    ensures
        rule_error(rules) is None <==> forall|i: int|
            0 <= i < rules.len() ==> alerts::read_rule(#[trigger] rules[i]) is Ok,
    decreases rules.len(),
{
    if rules.len() > 0 {
        let front = rules.drop_last();
        let last = rules.len() - 1;
        law_all_rules_have_to_be_readable(front);
        if rule_error(front) is Some {
            let i = choose|i: int|
                0 <= i < front.len() && !(alerts::read_rule(#[trigger] front[i]) is Ok);
            assert(rules[i] == front[i]);
        } else {
            assert forall|i: int| 0 <= i < last implies alerts::read_rule(
                #[trigger] rules[i],
            ) is Ok by {
                assert(front[i] == rules[i]);
            }
            assert(rules.last() == rules[last]);
        }
    }
}

/// The places of the groups in a plan are those of their columns.
pub proof fn law_planned_places_are_those_of_the_groups(
    names: Seq<Seq<char>>,
    headers: Seq<Seq<char>>,
    i: int,
)
    requires
        all_columns(names, headers),
        0 <= i < names.len(),
    ensures
        indices_of(names, headers).len() == names.len(),
        0 <= indices_of(names, headers)[i] < headers.len(),
        headers[indices_of(names, headers)[i]] == names[i],
{
    list::lemma_first_from(headers, table::equals(names[i]), 0);
    assert(headers.contains(names[i]));
    let k = choose|k: int| 0 <= k < headers.len() && headers[k] == names[i];
    assert(table::equals(names[i])(headers[k]));
    if let Some(at) = list::first_from(headers, table::equals(names[i]), 0) {
        assert(table::equals(names[i])(headers[at]));
    }
}

} // verus!
