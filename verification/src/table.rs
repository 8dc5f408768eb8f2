//! Tables of text cells: columns, filters, and what columns are good for.

use vstd::prelude::*;

use crate::answers;
use crate::drill::push_distinct;
use crate::groups;
use crate::groups::cell_of;
use crate::list;
use crate::numeric;
use crate::numeric::{float_text, numeric_cell};
use crate::order;
use crate::order::sort_by;
use crate::periods;
use crate::periods::{can_parse_date, parse_date_like};
use crate::scan;
use crate::scan::{ends, mentions, split_at_first};
use crate::text;
use crate::text::{cat3, eq_ignore_case, same, to_lower, to_lower_case, trimmed};

verus! {

/// The rows of a table that are looked at to tell what its columns are for.
pub const SAMPLED_ROWS: usize = 2000;

// ---------------------------------------------------------------------------
// Columns by name
// ---------------------------------------------------------------------------

/// Texts equal to the given one.
pub open spec fn equals(x: Seq<char>) -> spec_fn(Seq<char>) -> bool {
    |y: Seq<char>| y == x
}

/// Texts that differ from the given one at most in case.
pub open spec fn resembles(x: Seq<char>) -> spec_fn(Seq<char>) -> bool {
    |y: Seq<char>| text::same_ignoring_case(y, x)
}

/// The first column with exactly this name.
pub fn column_index(headers: &[String], name: &str) -> (r: Option<usize>)
    ensures
        match r {
            Some(i) => i < headers.len() && list::first_from(
                text::views(headers@),
                equals(name@),
                0,
            ) == Some(i as int),
            None => list::first_from(text::views(headers@), equals(name@), 0) is None,
        },
{
    let ghost all = text::views(headers@);
    let mut i: usize = 0;
    while i < headers.len()
        invariant
            i <= headers.len(),
            all == text::views(headers@),
            list::first_from(all, equals(name@), i as int) == list::first_from(
                all,
                equals(name@),
                0,
            ),
        decreases headers.len() - i,
    {
        assert(all[i as int] == headers@[i as int]@);
        if same(headers[i].as_str(), name) {
            return Some(i);
        }
        i += 1;
    }
    None
}

/// The first column with this name, whatever the case of its letters.
pub fn header_index_case_insensitive(headers: &[String], name: &str) -> (r: Option<usize>)
    ensures
        match r {
            Some(i) => i < headers.len() && list::first_from(
                text::views(headers@),
                resembles(name@),
                0,
            ) == Some(i as int),
            None => list::first_from(text::views(headers@), resembles(name@), 0) is None,
        },
{
    let ghost all = text::views(headers@);
    let mut i: usize = 0;
    while i < headers.len()
        invariant
            i <= headers.len(),
            all == text::views(headers@),
            list::first_from(all, resembles(name@), i as int) == list::first_from(
                all,
                resembles(name@),
                0,
            ),
        decreases headers.len() - i,
    {
        assert(all[i as int] == headers@[i as int]@);
        if eq_ignore_case(headers[i].as_str(), name) {
            return Some(i);
        }
        i += 1;
    }
    None
}

/// The column that a name means: the one of exactly that name, else the first
/// that differs only in case.
pub open spec fn column_named(headers: Seq<Seq<char>>, name: Seq<char>) -> Option<Seq<char>> {
    let n = text::trim(name);
    if headers.contains(n) {
        Some(n)
    } else {
        list::first(headers, resembles(n))
    }
}

pub open spec fn no_group_column(name: Seq<char>) -> Seq<char> {
    "group column '"@ + text::trim(name) + "' not found"@
}

/// The column that a name means.
pub fn resolve_group_name(name: &str, headers: &[String]) -> (r: Result<String, String>)
    ensures
        match r {
            Ok(c) => column_named(text::views(headers@), name@) == Some(c@) && text::views(
                headers@,
            ).contains(c@),
            Err(e) => column_named(text::views(headers@), name@) is None && e@ == no_group_column(
                name@,
            ),
        },
{
    let n = trimmed(name);
    let ghost all = text::views(headers@);
    proof {
        list::lemma_first_from(all, equals(n@), 0);
        list::lemma_first_from(all, resembles(n@), 0);
    }
    match column_index(headers, n.as_str()) {
        Some(i) => {
            assert(all[i as int] == n@);
            return Ok(n);
        },
        None => {
            assert(!all.contains(n@)) by {
                if all.contains(n@) {
                    let j = choose|j: int| 0 <= j < all.len() && all[j] == n@;
                    assert(equals(n@)(all[j]));
                }
            }
        },
    }
    match header_index_case_insensitive(headers, n.as_str()) {
        Some(i) => {
            assert(all[i as int] == headers@[i as int]@);
            Ok(headers[i].clone())
        },
        None => Err(cat3("group column '", n.as_str(), "' not found")),
    }
}

/// Columns that hold identifiers, by their names.
pub open spec fn is_identifier_name(name: Seq<char>) -> bool {
    let n = text::lower(name);
    n == "id"@ || scan::ends_with(n, "_id"@) || scan::ends_with(n, "_identifier"@)
        || scan::ends_with(n, "_uuid"@) || scan::ends_with(n, "_guid"@) || scan::ends_with(
        n,
        "_key"@,
    ) || scan::ends_with(n, "_hash"@)
}

/// Whether a column holds identifiers, by its name.
pub fn looks_like_identifier_column(name: &str) -> (r: bool)
    ensures
        r == is_identifier_name(name@),
{
    let n = to_lower(name);
    let s = n.as_str();
    same(s, "id") || ends(s, "_id") || ends(s, "_identifier") || ends(s, "_uuid") || ends(
        s,
        "_guid",
    ) || ends(s, "_key") || ends(s, "_hash")
}

// ---------------------------------------------------------------------------
// Cells of columns
// ---------------------------------------------------------------------------

/// The cells of a column that are not empty, of the first `n` rows, trimmed.
pub open spec fn filled_cells(rows: Seq<Vec<String>>, i: int, n: int) -> Seq<Seq<char>>
    decreases n,
{
    if n <= 0 {
        Seq::empty()
    } else {
        let front = filled_cells(rows, i, n - 1);
        let c = groups::cell(rows[n - 1]@, i);
        if c.len() > 0 {
            front.push(c)
        } else {
            front
        }
    }
}

/// The number of rows that are looked at: all, but at most `limit`.
pub open spec fn sample_size(rows: Seq<Vec<String>>, limit: usize) -> int {
    if rows.len() < limit {
        rows.len() as int
    } else {
        limit as int
    }
}

pub proof fn lemma_filled_cells(rows: Seq<Vec<String>>, i: int, n: int)
    requires
        0 <= n <= rows.len(),
    ensures
        filled_cells(rows, i, n).len() <= n,
    decreases n,
{
    if n > 0 {
        lemma_filled_cells(rows, i, n - 1);
    }
}

/// The cells of a column that are not empty, of the first `limit` rows.
pub fn column_cells(rows: &Vec<Vec<String>>, i: usize, limit: usize) -> (r: Vec<String>)
    ensures
        text::views(r@) == filled_cells(rows@, i as int, sample_size(rows@, limit)),
        r.len() <= rows.len(),
{
    let n: usize = if rows.len() < limit {
        rows.len()
    } else {
        limit
    };
    let mut out: Vec<String> = Vec::new();
    let mut k: usize = 0;
    assert(text::views(out@) =~= filled_cells(rows@, i as int, 0));
    while k < n
        invariant
            k <= n <= rows.len(),
            out.len() <= k,
            text::views(out@) == filled_cells(rows@, i as int, k as int),
        decreases n - k,
    {
        let ghost before = text::views(out@);
        let c = cell_of(&rows[k], i);
        if !c.as_str().is_empty() {
            out.push(c);
            assert(text::views(out@) =~= before.push(c@));
        }
        k += 1;
    }
    out
}

/// The cells that denote numbers.
pub open spec fn numeric_cells(cells: Seq<Seq<char>>) -> Seq<Seq<char>> {
    list::keep(cells, |c: Seq<char>| numeric::is_numeric_cell(c))
}

/// How many cells denote numbers.
pub fn count_numeric(cells: &Vec<String>) -> (r: usize)
    ensures
        r == numeric_cells(text::views(cells@)).len(),
        r <= cells.len(),
{
    let ghost all = text::views(cells@);
    let ghost p = |c: Seq<char>| numeric::is_numeric_cell(c);
    let mut n: usize = 0;
    let mut i: usize = 0;
    while i < cells.len()
        invariant
            i <= cells.len(),
            n <= i,
            all == text::views(cells@),
            p == (|c: Seq<char>| numeric::is_numeric_cell(c)),
            n == list::keep(all.take(i as int), p).len(),
        decreases cells.len() - i,
    {
        assert(all.take(i + 1).drop_last() =~= all.take(i as int));
        assert(all[i as int] == cells@[i as int]@);
        if numeric_cell(cells[i].as_str()) {
            n += 1;
        }
        i += 1;
    }
    assert(all.take(all.len() as int) =~= all);
    n
}

/// The different texts among the cells that are not numbers.
pub open spec fn distinct_words(cells: Seq<Seq<char>>) -> Seq<Seq<char>> {
    list::distinct_by(
        list::keep(cells, |c: Seq<char>| !numeric::is_float_text(c)),
        |c: Seq<char>| c,
    )
}

fn find_distinct_words(cells: &Vec<String>) -> (r: Vec<String>)
    ensures
        text::views(r@) == distinct_words(text::views(cells@)),
{
    let ghost all = text::views(cells@);
    let ghost p = |c: Seq<char>| !numeric::is_float_text(c);
    let mut out: Vec<String> = Vec::new();
    let mut i: usize = 0;
    assert(text::views(out@) =~= list::distinct_by(
        list::keep(all.take(0), p),
        |c: Seq<char>| c,
    ));
    while i < cells.len()
        invariant
            i <= cells.len(),
            all == text::views(cells@),
            p == (|c: Seq<char>| !numeric::is_float_text(c)),
            text::views(out@) == list::distinct_by(
                list::keep(all.take(i as int), p),
                |c: Seq<char>| c,
            ),
        decreases cells.len() - i,
    {
        assert(all.take(i + 1).drop_last() =~= all.take(i as int));
        assert(all[i as int] == cells@[i as int]@);
        if !float_text(cells[i].as_str()) {
            push_distinct(
                &mut out,
                cells[i].as_str(),
                Ghost(list::keep(all.take(i as int), p)),
            );
        }
        i += 1;
    }
    assert(all.take(all.len() as int) =~= all);
    out
}

// ---------------------------------------------------------------------------
// Columns to group by
// ---------------------------------------------------------------------------

/// The filled cells of the columns before `n` that have a name.
pub open spec fn cells_named(
    rows: Seq<Vec<String>>,
    headers: Seq<Seq<char>>,
    name: Seq<char>,
    sample: int,
    n: int,
) -> Seq<Seq<char>>
    decreases n,
{
    if n <= 0 {
        Seq::empty()
    } else {
        let front = cells_named(rows, headers, name, sample, n - 1);
        if headers[n - 1] == name {
            front + filled_cells(rows, n - 1, sample)
        } else {
            front
        }
    }
}

/// A column by which rows can be grouped: between 2 and 60 different texts,
/// more than a fifth of the rows filled, and no identifiers.
pub open spec fn can_group(name: Seq<char>, cells: Seq<Seq<char>>, sampled: int) -> bool {
    2 <= distinct_words(cells).len() <= 60 && 5 * cells.len() > sampled && !is_identifier_name(name)
}

/// The columns by which rows can be grouped, each with its number of different
/// texts, among the given names.
pub open spec fn group_candidates(
    rows: Seq<Vec<String>>,
    headers: Seq<Seq<char>>,
    names: Seq<Seq<char>>,
    sample: int,
) -> Seq<(Seq<char>, int)>
    decreases names.len(),
{
    if names.len() == 0 {
        Seq::empty()
    } else {
        let front = group_candidates(rows, headers, names.drop_last(), sample);
        let cells = cells_named(rows, headers, names.last(), sample, headers.len() as int);
        if can_group(names.last(), cells, sample) {
            front.push((names.last(), distinct_words(cells).len() as int))
        } else {
            front
        }
    }
}

pub open spec fn fewer_values() -> spec_fn((Seq<char>, int), (Seq<char>, int)) -> bool {
    |a: (Seq<char>, int), b: (Seq<char>, int)| a.1 < b.1
}

/// The columns by which the rows are grouped when none are named: those with
/// the fewest different texts first, at most `k`.
pub open spec fn detected_groups(rows: Seq<Vec<String>>, headers: Seq<Seq<char>>, k: usize) -> Seq<
    Seq<char>,
> {
    let found = group_candidates(
        rows,
        headers,
        list::distinct_by(headers, |h: Seq<char>| h),
        sample_size(rows, SAMPLED_ROWS),
    );
    answers::at_most(order::sorted(found, fewer_values()), k as int).map_values(
        |c: (Seq<char>, int)| c.0,
    )
}

fn find_cells_named(rows: &Vec<Vec<String>>, headers: &[String], name: &str) -> (r: Vec<String>)
    ensures
        text::views(r@) == cells_named(
            rows@,
            text::views(headers@),
            name@,
            sample_size(rows@, SAMPLED_ROWS),
            headers@.len() as int,
        ),
{
    let ghost names = text::views(headers@);
    let mut out: Vec<String> = Vec::new();
    let mut i: usize = 0;
    assert(text::views(out@) =~= Seq::empty());
    while i < headers.len()
        invariant
            i <= headers.len(),
            names == text::views(headers@),
            text::views(out@) == cells_named(
                rows@,
                names,
                name@,
                sample_size(rows@, SAMPLED_ROWS),
                i as int,
            ),
        decreases headers.len() - i,
    {
        assert(names[i as int] == headers@[i as int]@);
        if same(headers[i].as_str(), name) {
            let ghost before = text::views(out@);
            let mut cells = column_cells(rows, i, SAMPLED_ROWS);
            let ghost more = text::views(cells@);
            out.append(&mut cells);
            assert(text::views(out@) =~= before + more);
        }
        i += 1;
    }
    out
}

/// A column with its number of different texts.
struct Candidate {
    name: String,
    values: usize,
}

spec fn candidate_views(s: Seq<Candidate>) -> Seq<(Seq<char>, int)> {
    Seq::new(s.len(), |i: int| (s[i].name@, s[i].values as int))
}

proof fn lemma_sorted_candidates(s: Seq<Candidate>)
    ensures
        candidate_views(
            order::sorted(s, |a: Candidate, b: Candidate| a.values < b.values),
        ) == order::sorted(candidate_views(s), fewer_values()),
        order::sorted(s, |a: Candidate, b: Candidate| a.values < b.values).len() == s.len(),
    decreases s.len(),
{
    let before = |a: Candidate, b: Candidate| a.values < b.values;
    if s.len() > 0 {
        lemma_sorted_candidates(s.drop_last());
        let front = order::sorted(s.drop_last(), before);
        assert(candidate_views(s).drop_last() =~= candidate_views(s.drop_last()));
        lemma_slot_candidates(front, s.last());
        order::lemma_slot_range(front, s.last(), before);
        let k = order::slot(front, s.last(), before);
        assert(candidate_views(front.insert(k, s.last())) =~= candidate_views(front).insert(
            k,
            (s.last().name@, s.last().values as int),
        ));
    } else {
        assert(candidate_views(s) =~= Seq::empty());
    }
}

proof fn lemma_slot_candidates(s: Seq<Candidate>, x: Candidate)
    ensures
        order::slot(s, x, |a: Candidate, b: Candidate| a.values < b.values) == order::slot(
            candidate_views(s),
            (x.name@, x.values as int),
            fewer_values(),
        ),
    decreases s.len(),
{
    if s.len() > 0 {
        assert(candidate_views(s).drop_last() =~= candidate_views(s.drop_last()));
        lemma_slot_candidates(s.drop_last(), x);
    }
}

/// The columns by which rows are grouped when none are named: those with the
/// fewest different texts first, at most `k`. Columns with equally many keep
/// their order.
pub fn auto_detect_groups(headers: &[String], rows: &Vec<Vec<String>>, k: usize) -> (r: Vec<String>)
    ensures
        text::views(r@) == detected_groups(rows@, text::views(headers@), k),
{
    let ghost names = text::views(headers@);
    let ghost sample = sample_size(rows@, SAMPLED_ROWS);
    let sampled: usize = if rows.len() < SAMPLED_ROWS {
        rows.len()
    } else {
        SAMPLED_ROWS
    };
    let mut unique: Vec<String> = Vec::new();
    let mut i: usize = 0;
    assert(text::views(unique@) =~= list::distinct_by(names.take(0), |h: Seq<char>| h));
    while i < headers.len()
        invariant
            i <= headers.len(),
            names == text::views(headers@),
            text::views(unique@) == list::distinct_by(names.take(i as int), |h: Seq<char>| h),
        decreases headers.len() - i,
    {
        assert(names[i as int] == headers@[i as int]@);
        push_distinct(&mut unique, headers[i].as_str(), Ghost(names.take(i as int)));
        assert(names.take(i as int).push(names[i as int]) =~= names.take(i + 1));
        i += 1;
    }
    assert(names.take(names.len() as int) =~= names);
    let ghost all = text::views(unique@);
    let mut found: Vec<Candidate> = Vec::new();
    let mut j: usize = 0;
    assert(candidate_views(found@) =~= group_candidates(rows@, names, all.take(0), sample));
    while j < unique.len()
        invariant
            j <= unique.len(),
            names == text::views(headers@),
            all == text::views(unique@),
            sample == sample_size(rows@, SAMPLED_ROWS),
            sampled == sample,
            candidate_views(found@) == group_candidates(
                rows@,
                names,
                all.take(j as int),
                sample,
            ),
        decreases unique.len() - j,
    {
        assert(all.take(j + 1).drop_last() =~= all.take(j as int));
        assert(all[j as int] == unique@[j as int]@);
        let ghost before = candidate_views(found@);
        let cells = find_cells_named(rows, headers, unique[j].as_str());
        let different = find_distinct_words(&cells);
        let card: usize = different.len();
        if 2 <= card && card <= 60 && (cells.len() as u128) * 5 > sampled as u128
            && !looks_like_identifier_column(unique[j].as_str()) {
            found.push(Candidate { name: unique[j].clone(), values: card });
            assert(candidate_views(found@) =~= before.push((all[j as int], card as int)));
        }
        j += 1;
    }
    assert(all.take(all.len() as int) =~= all);
    proof {
        lemma_sorted_candidates(found@);
    }
    let ghost unsorted = found@;
    let precedes = |a: &Candidate, b: &Candidate| -> (x: bool)
        ensures
            x == (a.values < b.values),
        { a.values < b.values };
    let mut ranked = sort_by(
        found,
        precedes,
        Ghost(|a: Candidate, b: Candidate| a.values < b.values),
    );
    ranked.truncate(k);
    let mut out: Vec<String> = Vec::new();
    let mut m: usize = 0;
    while m < ranked.len()
        invariant
            m <= ranked.len(),
            out.len() == m,
            forall|q: int| 0 <= q < m ==> (#[trigger] out@[q])@ == ranked@[q].name@,
        decreases ranked.len() - m,
    {
        out.push(ranked[m].name.clone());
        m += 1;
    }
    assert(text::views(out@) =~= detected_groups(rows@, names, k));
    out
}

// ---------------------------------------------------------------------------
// Columns to measure by
// ---------------------------------------------------------------------------

/// A column that can be measured: no group column, no date or identifier, and
/// of its filled cells at least four fifths are numbers.
pub open spec fn can_measure(name: Seq<char>, groups: Seq<Seq<char>>, cells: Seq<Seq<char>>) -> bool {
    !groups.contains(name) && !text::same_ignoring_case(name, "date"@) && !is_identifier_name(name)
        && cells.len() > 0 && 5 * numeric_cells(cells).len() >= 4 * cells.len()
}

/// The columns before `n` that can be measured, each with its number of filled cells.
pub open spec fn metric_candidates(
    rows: Seq<Vec<String>>,
    headers: Seq<Seq<char>>,
    groups: Seq<Seq<char>>,
    n: int,
) -> Seq<(int, int)>
    decreases n,
{
    if n <= 0 {
        Seq::empty()
    } else {
        let front = metric_candidates(rows, headers, groups, n - 1);
        let cells = filled_cells(rows, n - 1, sample_size(rows, 1500));
        if can_measure(headers[n - 1], groups, cells) {
            front.push((n - 1, cells.len() as int))
        } else {
            front
        }
    }
}

pub open spec fn better_filled() -> spec_fn((int, int), (int, int)) -> bool {
    |a: (int, int), b: (int, int)| b.1 < a.1
}

/// The columns that are measured when none are named: the best filled first,
/// each name once, at most `max_metrics` but at least one where there is one.
pub open spec fn detected_metrics(
    rows: Seq<Vec<String>>,
    headers: Seq<Seq<char>>,
    groups: Seq<Seq<char>>,
    max_metrics: usize,
) -> Seq<(int, int)> {
    answers::at_most(
        list::distinct_by(
            order::sorted(
                metric_candidates(rows, headers, groups, headers.len() as int),
                better_filled(),
            ),
            |c: (int, int)| headers[c.0],
        ),
        answers::bullet_limit(max_metrics),
    )
}

spec fn pair_views(s: Seq<(usize, usize)>) -> Seq<(int, int)> {
    Seq::new(s.len(), |i: int| (s[i].0 as int, s[i].1 as int))
}

proof fn lemma_sorted_pairs(s: Seq<(usize, usize)>)
    ensures
        pair_views(
            order::sorted(s, |a: (usize, usize), b: (usize, usize)| b.1 < a.1),
        ) == order::sorted(pair_views(s), better_filled()),
    decreases s.len(),
{
    let before = |a: (usize, usize), b: (usize, usize)| b.1 < a.1;
    if s.len() > 0 {
        lemma_sorted_pairs(s.drop_last());
        let front = order::sorted(s.drop_last(), before);
        assert(pair_views(s).drop_last() =~= pair_views(s.drop_last()));
        lemma_slot_pairs(front, s.last());
        order::lemma_slot_range(front, s.last(), before);
        let k = order::slot(front, s.last(), before);
        assert(pair_views(front.insert(k, s.last())) =~= pair_views(front).insert(
            k,
            (s.last().0 as int, s.last().1 as int),
        ));
    } else {
        assert(pair_views(s) =~= Seq::empty());
    }
}

proof fn lemma_slot_pairs(s: Seq<(usize, usize)>, x: (usize, usize))
    ensures
        order::slot(s, x, |a: (usize, usize), b: (usize, usize)| b.1 < a.1) == order::slot(
            pair_views(s),
            (x.0 as int, x.1 as int),
            better_filled(),
        ),
    decreases s.len(),
{
    if s.len() > 0 {
        assert(pair_views(s).drop_last() =~= pair_views(s.drop_last()));
        lemma_slot_pairs(s.drop_last(), x);
    }
}

/// The columns that are measured when none are named, each with its index; an
/// error where the sampled rows show none.
pub fn auto_detect_numeric_metrics(
    headers: &[String],
    rows: &Vec<Vec<String>>,
    group_cols: &[String],
    max_metrics: usize,
) -> (r: Result<Vec<(String, usize)>, String>)
    ensures
        ({
            let found = detected_metrics(
                rows@,
                text::views(headers@),
                text::views(group_cols@),
                max_metrics,
            );
            match r {
                Ok(ms) => !(found.len() == 0 && rows@.len() > 0) && ms@.len() == found.len()
                    && forall|i: int|
                    0 <= i < found.len() ==> (#[trigger] ms@[i]).1 == found[i].0 && ms@[i].1
                        < headers@.len() && ms@[i].0@ == headers@[ms@[i].1 as int]@,
                Err(e) => found.len() == 0 && rows@.len() > 0 && e@
                    == "no numeric metric columns auto-detected; pass --metrics explicitly"@,
            }
        }),
{
    let ghost names = text::views(headers@);
    let ghost groups = text::views(group_cols@);
    let mut found: Vec<(usize, usize)> = Vec::new();
    let mut i: usize = 0;
    assert(pair_views(found@) =~= metric_candidates(rows@, names, groups, 0));
    while i < headers.len()
        invariant
            i <= headers.len(),
            names == text::views(headers@),
            groups == text::views(group_cols@),
            pair_views(found@) == metric_candidates(rows@, names, groups, i as int),
            forall|j: int| 0 <= j < found.len() ==> (#[trigger] found@[j]).0 < i,
        decreases headers.len() - i,
    {
        let ghost before = pair_views(found@);
        assert(names[i as int] == headers@[i as int]@);
        let name = headers[i].as_str();
        let cells = column_cells(rows, i, 1500);
        let ok: usize = count_numeric(&cells);
        if !crate::drill::among(group_cols, name) && !eq_ignore_case(name, "date")
            && !looks_like_identifier_column(name) && cells.len() > 0 && (ok as u128) * 5 >= (
        cells.len() as u128) * 4 {
            found.push((i, cells.len()));
            assert(pair_views(found@) =~= before.push((i as int, cells@.len() as int)));
        }
        i += 1;
    }
    proof {
        lemma_sorted_pairs(found@);
        order::lemma_sorted_permutation(
            found@,
            |a: (usize, usize), b: (usize, usize)| b.1 < a.1,
        );
    }
    let ghost unsorted = found@;
    let precedes = |a: &(usize, usize), b: &(usize, usize)| -> (x: bool)
        ensures
            x == (b.1 < a.1),
        { b.1 < a.1 };
    let ranked = sort_by(
        found,
        precedes,
        Ghost(|a: (usize, usize), b: (usize, usize)| b.1 < a.1),
    );
    let ghost order_of = pair_views(ranked@);
    let ghost key = |c: (int, int)| names[c.0];
    proof {
        assert forall|j: int| 0 <= j < ranked.len() implies (#[trigger] ranked@[j]).0
            < headers.len() by {
            broadcast use vstd::seq_lib::group_to_multiset_ensures;

            assert(ranked@.to_multiset().count(ranked@[j]) > 0);
            assert(unsorted.to_multiset().count(ranked@[j]) > 0);
            assert(unsorted.contains(ranked@[j]));
        }
    }
    let mut out: Vec<(String, usize)> = Vec::new();
    let ghost mut kept: Seq<(int, int)> = Seq::empty();
    let mut k: usize = 0;
    assert(kept =~= list::distinct_by(order_of.take(0), key));
    while k < ranked.len()
        invariant
            k <= ranked.len(),
            names == text::views(headers@),
            order_of == pair_views(ranked@),
            key == (|c: (int, int)| names[c.0]),
            forall|j: int| 0 <= j < ranked.len() ==> (#[trigger] ranked@[j]).0 < headers.len(),
            kept == list::distinct_by(order_of.take(k as int), key),
            out.len() == kept.len(),
            forall|j: int|
                0 <= j < kept.len() ==> (#[trigger] out@[j]).1 == kept[j].0 && out@[j].1
                    < headers.len() && out@[j].0@ == headers@[out@[j].1 as int]@ && kept[j].0
                    == out@[j].1,
        decreases ranked.len() - k,
    {
        assert(order_of.take(k + 1).drop_last() =~= order_of.take(k as int));
        let idx: usize = ranked[k].0;
        assert(order_of[k as int].0 == idx);
        let name = headers[idx].as_str();
        let mut seen: bool = false;
        let mut j: usize = 0;
        while j < out.len()
            invariant
                j <= out.len(),
                out.len() == kept.len(),
                names == text::views(headers@),
                key == (|c: (int, int)| names[c.0]),
                idx < headers.len(),
                name@ == headers@[idx as int]@,
                order_of[k as int].0 == idx,
                forall|q: int|
                    0 <= q < kept.len() ==> (#[trigger] out@[q]).1 == kept[q].0 && out@[q].1
                        < headers.len() && out@[q].0@ == headers@[out@[q].1 as int]@ && kept[q].0
                        == out@[q].1,
                seen == exists|q: int|
                    0 <= q < j && key(#[trigger] kept[q]) == key(order_of[k as int]),
            decreases out.len() - j,
        {
            assert(out@[j as int].1 == kept[j as int].0);
            assert(key(kept[j as int]) == out@[j as int].0@);
            if same(out[j].0.as_str(), name) {
                assert(key(kept[j as int]) == key(order_of[k as int]));
                seen = true;
            }
            j += 1;
        }
        if !seen {
            out.push((headers[idx].clone(), idx));
            proof {
                kept = kept.push(order_of[k as int]);
            }
        }
        k += 1;
    }
    assert(order_of.take(order_of.len() as int) =~= order_of);
    let limit: usize = if max_metrics < 1 {
        1
    } else {
        max_metrics
    };
    out.truncate(limit);
    if out.len() == 0 && rows.len() > 0 {
        return Err("no numeric metric columns auto-detected; pass --metrics explicitly".to_owned());
    }
    Ok(out)
}

// ---------------------------------------------------------------------------
// Filters
// ---------------------------------------------------------------------------

/// A filter: the column's name and index, and the value wanted there.
pub struct FilterView {
    pub column: Seq<char>,
    pub index: int,
    pub value: Seq<char>,
}

/// A filter: the column's name and index, and the value wanted there.
#[derive(Debug)]
pub struct Filter {
    pub column: String,
    pub index: usize,
    pub value: String,
}

impl View for Filter {
    type V = FilterView;

    open spec fn view(&self) -> FilterView {
        FilterView { column: self.column@, index: self.index as int, value: self.value@ }
    }
}

pub open spec fn filter_views(s: Seq<Filter>) -> Seq<FilterView> {
    Seq::new(s.len(), |i: int| s[i]@)
}

/// The filter that a clause describes; `None` for a blank clause.
pub open spec fn clause_filter(clause: Seq<char>, headers: Seq<Seq<char>>) -> Result<
    Option<FilterView>,
    Seq<char>,
> {
    let raw = text::trim(clause);
    if raw.len() == 0 {
        Ok(None)
    } else {
        match scan::split_once(raw, "="@) {
            None => Err("invalid --where clause '"@ + raw + "'; expected column=value"@),
            Some(p) => match column_named(headers, text::trim(p.0)) {
                None => Err(no_group_column(text::trim(p.0))),
                Some(c) => Ok(
                    Some(
                        FilterView {
                            column: c,
                            index: list::first_from(headers, equals(c), 0)->0,
                            value: text::trim(p.1),
                        },
                    ),
                ),
            },
        }
    }
}

/// The filters that clauses describe, or why one of them describes none.
pub open spec fn clause_filters(clauses: Seq<Seq<char>>, headers: Seq<Seq<char>>) -> Result<
    Seq<FilterView>,
    Seq<char>,
>
    decreases clauses.len(),
{
    if clauses.len() == 0 {
        Ok(Seq::empty())
    } else {
        match clause_filters(clauses.drop_last(), headers) {
            Err(e) => Err(e),
            Ok(front) => match clause_filter(clauses.last(), headers) {
                Err(e) => Err(e),
                Ok(None) => Ok(front),
                Ok(Some(f)) => Ok(front.push(f)),
            },
        }
    }
}

proof fn lemma_clause_error(clauses: Seq<Seq<char>>, headers: Seq<Seq<char>>, k: int)
    requires
        0 <= k <= clauses.len(),
        clause_filters(clauses.take(k), headers) is Err,
    ensures
        clause_filters(clauses, headers) == clause_filters(clauses.take(k), headers),
    decreases clauses.len() - k,
{
    if k == clauses.len() {
        assert(clauses.take(k) =~= clauses);
    } else {
        assert(clauses.take(k + 1).drop_last() =~= clauses.take(k));
        lemma_clause_error(clauses, headers, k + 1);
    }
}

fn read_clause(clause: &str, headers: &[String]) -> (r: Result<Option<Filter>, String>)
    ensures
        match r {
            Ok(None) => clause_filter(clause@, text::views(headers@)) == Ok::<
                Option<FilterView>,
                Seq<char>,
            >(None),
            Ok(Some(f)) => clause_filter(clause@, text::views(headers@)) == Ok::<
                Option<FilterView>,
                Seq<char>,
            >(Some(f@)) && f.index < headers.len(),
            Err(e) => clause_filter(clause@, text::views(headers@)) == Err::<
                Option<FilterView>,
                Seq<char>,
            >(e@),
        },
{
    let ghost names = text::views(headers@);
    let raw = trimmed(clause);
    if raw.as_str().is_empty() {
        return Ok(None);
    }
    match split_at_first(raw.as_str(), "=") {
        None => Err(
            cat3("invalid --where clause '", raw.as_str(), "'; expected column=value"),
        ),
        Some(p) => {
            let wanted = trimmed(p.0.as_str());
            match resolve_group_name(wanted.as_str(), headers) {
                Err(e) => Err(e),
                Ok(c) => {
                    proof {
                        list::lemma_first_from(names, equals(c@), 0);
                        let j = choose|j: int| 0 <= j < names.len() && names[j] == c@;
                        assert(equals(c@)(names[j]));
                    }
                    match column_index(headers, c.as_str()) {
                        Some(index) => Ok(
                            Some(Filter { column: c, index, value: trimmed(p.1.as_str()) }),
                        ),
                        None => Err(cat3("filter column not found: ", c.as_str(), "")),
                    }
                },
            }
        },
    }
}

/// The filters that clauses of the form `column=value` describe; blank clauses
/// describe none.
pub fn parse_where_filters(clauses: &[String], headers: &[String]) -> (r: Result<
    Vec<Filter>,
    String,
>)
    ensures
        match r {
            Ok(fs) => clause_filters(text::views(clauses@), text::views(headers@)) == Ok::<
                Seq<FilterView>,
                Seq<char>,
            >(filter_views(fs@)) && forall|i: int|
                0 <= i < fs.len() ==> (#[trigger] fs@[i]).index < headers.len(),
            Err(e) => clause_filters(text::views(clauses@), text::views(headers@)) == Err::<
                Seq<FilterView>,
                Seq<char>,
            >(e@),
        },
{
    let ghost all = text::views(clauses@);
    let ghost names = text::views(headers@);
    let mut out: Vec<Filter> = Vec::new();
    let mut i: usize = 0;
    assert(filter_views(out@) =~= Seq::empty());
    while i < clauses.len()
        invariant
            i <= clauses.len(),
            all == text::views(clauses@),
            names == text::views(headers@),
            clause_filters(all.take(i as int), names) == Ok::<Seq<FilterView>, Seq<char>>(
                filter_views(out@),
            ),
            forall|j: int| 0 <= j < out.len() ==> (#[trigger] out@[j]).index < headers.len(),
        decreases clauses.len() - i,
    {
        assert(all.take(i + 1).drop_last() =~= all.take(i as int));
        assert(all[i as int] == clauses@[i as int]@);
        match read_clause(clauses[i].as_str(), headers) {
            Err(e) => {
                proof {
                    lemma_clause_error(all, names, i + 1);
                }
                return Err(e);
            },
            Ok(None) => {},
            Ok(Some(f)) => {
                let ghost before = filter_views(out@);
                out.push(f);
                assert(filter_views(out@) =~= before.push(f@));
            },
        }
        i += 1;
    }
    assert(all.take(all.len() as int) =~= all);
    Ok(out)
}

/// The row has the wanted value in every filtered column.
pub open spec fn passes(row: Seq<String>, filters: Seq<FilterView>) -> bool {
    forall|i: int|
        0 <= i < filters.len() ==> groups::cell(row, (#[trigger] filters[i]).index)
            == filters[i].value
}

/// Whether a row has the wanted value in every filtered column.
pub fn matches_where_filters(row: &Vec<String>, filters: &Vec<Filter>) -> (r: bool)
    ensures
        r == passes(row@, filter_views(filters@)),
{
    let ghost fs = filter_views(filters@);
    let mut i: usize = 0;
    while i < filters.len()
        invariant
            i <= filters.len(),
            fs == filter_views(filters@),
            forall|j: int|
                0 <= j < i ==> groups::cell(row@, (#[trigger] fs[j]).index) == fs[j].value,
        decreases filters.len() - i,
    {
        let c = cell_of(row, filters[i].index);
        if !same(c.as_str(), filters[i].value.as_str()) {
            assert(groups::cell(row@, fs[i as int].index) != fs[i as int].value);
            return false;
        }
        i += 1;
    }
    true
}

// ---------------------------------------------------------------------------
// Date columns
// ---------------------------------------------------------------------------

/// The cells that denote days.
pub open spec fn day_cells(cells: Seq<Seq<char>>) -> Seq<Seq<char>> {
    list::keep(cells, |c: Seq<char>| periods::cell_day(c) is Some)
}

/// How many cells denote days; `None` where one of them cannot be looked at
/// without splitting a character.
pub fn count_days(cells: &Vec<String>) -> (r: Option<usize>)
    ensures
        match r {
            Some(n) => n == day_cells(text::views(cells@)).len() && n <= cells.len() && forall|
                i: int,
            |
                0 <= i < cells.len() ==> periods::is_sliceable(
                    text::trim((#[trigger] text::views(cells@)[i])),
                ),
            None => exists|i: int|
                0 <= i < cells.len() && !periods::is_sliceable(
                    text::trim((#[trigger] text::views(cells@)[i])),
                ),
        },
{
    let ghost all = text::views(cells@);
    let ghost p = |c: Seq<char>| periods::cell_day(c) is Some;
    let mut n: usize = 0;
    let mut i: usize = 0;
    while i < cells.len()
        invariant
            i <= cells.len(),
            n <= i,
            all == text::views(cells@),
            p == (|c: Seq<char>| periods::cell_day(c) is Some),
            n == list::keep(all.take(i as int), p).len(),
            forall|j: int|
                0 <= j < i ==> periods::is_sliceable(text::trim((#[trigger] all[j]))),
        decreases cells.len() - i,
    {
        assert(all.take(i + 1).drop_last() =~= all.take(i as int));
        assert(all[i as int] == cells@[i as int]@);
        if !can_parse_date(cells[i].as_str()) {
            assert(!periods::is_sliceable(text::trim(all[i as int])));
            return None;
        }
        if parse_date_like(cells[i].as_str()).is_some() {
            n += 1;
        }
        i += 1;
    }
    assert(all.take(all.len() as int) =~= all);
    Some(n)
}

/// A column whose name speaks of dates or times, in lower case.
pub open spec fn names_time(lowered: Seq<char>) -> bool {
    scan::contains(lowered, "date"@) || scan::contains(lowered, "time"@)
}

/// How many cells of a column were looked at, and how many of them are days;
/// nothing for a column whose name does not speak of time.
pub open spec fn date_evidence(rows: Seq<Vec<String>>, headers: Seq<Seq<char>>, i: int) -> Option<
    (int, int),
> {
    let cells = filled_cells(rows, i, sample_size(rows, 1000));
    if names_time(text::lower_case(headers[i])) && cells.len() > 0 {
        Some((day_cells(cells).len() as int, cells.len() as int))
    } else {
        None
    }
}

/// The best date column among the first `n`: at least four fifths of its cells
/// are days, in a larger part than before it.
pub open spec fn best_date_column(rows: Seq<Vec<String>>, headers: Seq<Seq<char>>, n: int) -> Option<
    int,
>
    decreases n,
{
    if n <= 0 {
        None
    } else {
        let front = best_date_column(rows, headers, n - 1);
        match date_evidence(rows, headers, n - 1) {
            None => front,
            Some(e) => if 5 * e.0 < 4 * e.1 {
                front
            } else {
                match front {
                    None => Some(n - 1),
                    Some(b) => {
                        let f = date_evidence(rows, headers, b)->0;
                        if e.0 * f.1 > f.0 * e.1 {
                            Some(n - 1)
                        } else {
                            front
                        }
                    },
                }
            },
        }
    }
}

/// A cell of a date column among the first `n` columns cannot be looked at
/// without splitting a character.
pub open spec fn date_cells_blocked(rows: Seq<Vec<String>>, headers: Seq<Seq<char>>, n: int) -> bool {
    exists|i: int, k: int|
        0 <= i < n && names_time(text::lower_case(#[trigger] headers[i])) && 0 <= k
            < filled_cells(rows, i, sample_size(rows, 1000)).len() && !periods::is_sliceable(
            text::trim(#[trigger] filled_cells(rows, i, sample_size(rows, 1000))[k]),
        )
}

/// The column that holds the dates of a table: its name speaks of dates or
/// times, and among the first thousand rows at least four fifths of its cells
/// are days; of several the one with the largest part, the first of equals.
/// The outer `None` means that a cell could not be looked at without splitting
/// a character.
#[verifier::loop_isolation(false)]
pub fn auto_detect_date_column(headers: &[String], rows: &Vec<Vec<String>>) -> (r: Option<
    Option<String>,
>)
    ensures
        r is None <==> date_cells_blocked(rows@, text::views(headers@), headers@.len() as int),
        match r {
            None => true,
            Some(None) => best_date_column(
                rows@,
                text::views(headers@),
                headers@.len() as int,
            ) is None,
            Some(Some(c)) => match best_date_column(
                rows@,
                text::views(headers@),
                headers@.len() as int,
            ) {
                Some(i) => 0 <= i < headers@.len() && c@ == headers@[i]@,
                None => false,
            },
        },
{
    let ghost names = text::views(headers@);
    let mut best: Option<(usize, usize, usize)> = None;
    let mut i: usize = 0;
    while i < headers.len()
        invariant
            i <= headers.len(),
            names == text::views(headers@),
            !date_cells_blocked(rows@, names, i as int),
            match best {
                None => best_date_column(rows@, names, i as int) is None,
                Some(b) => best_date_column(rows@, names, i as int) == Some(b.0 as int) && b.0 < i
                    && date_evidence(rows@, names, b.0 as int) == Some((b.1 as int, b.2 as int)),
            },
        decreases headers.len() - i,
    {
        assert(names[i as int] == headers@[i as int]@);
        let name = to_lower_case(headers[i].as_str());
        if mentions(name.as_str(), "date") || mentions(name.as_str(), "time") {
            let cells = column_cells(rows, i, 1000);
            if cells.len() > 0 {
                let ok: usize = match count_days(&cells) {
                    Some(n) => n,
                    None => {
                        proof {
                            let all = text::views(cells@);
                            let k = choose|k: int|
                                0 <= k < all.len() && !periods::is_sliceable(
                                    text::trim((#[trigger] all[k])),
                                );
                            assert(!periods::is_sliceable(
                                text::trim(
                                    filled_cells(
                                        rows@,
                                        i as int,
                                        sample_size(rows@, 1000),
                                    )[k],
                                ),
                            ));
                            assert(names_time(text::lower_case(names[i as int])));
                        }
                        return None;
                    },
                };
                let total: usize = cells.len();
                assert(date_evidence(rows@, names, i as int) == Some((ok as int, total as int)));
                if (ok as u128) * 5 >= (total as u128) * 4 {
                    match best {
                        None => {
                            best = Some((i, ok, total));
                        },
                        Some(b) => {
                            assert(ok * b.2 <= 0xffff_ffff_ffff_ffff * 0xffff_ffff_ffff_ffff)
                                by (nonlinear_arith)
                                requires
                                    0 <= ok <= 0xffff_ffff_ffff_ffff,
                                    0 <= b.2 <= 0xffff_ffff_ffff_ffff,
                            ;
                            assert(b.1 * total <= 0xffff_ffff_ffff_ffff * 0xffff_ffff_ffff_ffff)
                                by (nonlinear_arith)
                                requires
                                    0 <= b.1 <= 0xffff_ffff_ffff_ffff,
                                    0 <= total <= 0xffff_ffff_ffff_ffff,
                            ;
                            if (ok as u128) * (b.2 as u128) > (b.1 as u128) * (total as u128) {
                                best = Some((i, ok, total));
                            }
                        },
                    }
                }
            }
        }
        i += 1;
    }
    match best {
        Some(b) => Some(Some(headers[b.0].clone())),
        None => Some(None),
    }
}

/// Filters are joined by "and": a row passes two lists of filters together
/// where it passes each of them.
pub proof fn law_filters_are_joined(row: Seq<String>, a: Seq<FilterView>, b: Seq<FilterView>)
    ensures
        passes(row, a + b) == (passes(row, a) && passes(row, b)),
{
    if passes(row, a + b) {
        assert forall|i: int| 0 <= i < a.len() implies groups::cell(row, (#[trigger] a[i]).index)
            == a[i].value by {
            assert((a + b)[i] == a[i]);
        }
        assert forall|i: int| 0 <= i < b.len() implies groups::cell(row, (#[trigger] b[i]).index)
            == b[i].value by {
            assert((a + b)[a.len() + i] == b[i]);
        }
    }
}

/// A name means the header that equals it but for blanks around it, or else the
/// first one that differs from it in the case of letters alone. It means none
/// where there is neither.
pub proof fn law_names_mean_their_columns(headers: Seq<Seq<char>>, name: Seq<char>)
    ensures
        match column_named(headers, name) {
            Some(c) => headers.contains(c) && text::lower(c) == text::lower(text::trim(name)) && (
            headers.contains(text::trim(name)) ==> c == text::trim(name)),
            None => forall|i: int|
                0 <= i < headers.len() ==> text::lower(#[trigger] headers[i]) != text::lower(
                    text::trim(name),
                ),
        },
{
    let n = text::trim(name);
    list::lemma_first_from(headers, resembles(n), 0);
    if headers.contains(n) {
    } else {
        match list::first_from(headers, resembles(n), 0) {
            Some(k) => {
                assert(resembles(n)(headers[k]));
                assert(headers.contains(headers[k]));
            },
            None => {
                assert forall|i: int| 0 <= i < headers.len() implies text::lower(
                    #[trigger] headers[i],
                ) != text::lower(n) by {
                    assert(!resembles(n)(headers[i]));
                }
            },
        }
    }
}

/// A clause of a column and a value filters by these: by the first column of
/// that name, and by the value behind the first equals sign.
pub proof fn law_clauses_are_read_as_column_and_value(
    headers: Seq<Seq<char>>,
    column: Seq<char>,
    value: Seq<char>,
)
    requires
        headers.contains(column),
        forall|i: int| 0 <= i < column.len() ==> #[trigger] column[i] != '=',
        text::trim(column) == column,
        text::trim(value) == value,
        text::trim(column + "="@ + value) == column + "="@ + value,
    ensures
        clause_filter(column + "="@ + value, headers) matches Ok(Some(f)) && f.column == column
            && f.value == value && 0 <= f.index < headers.len() && headers[f.index] == column
            && forall|k: int| 0 <= k < f.index ==> #[trigger] headers[k] != column,
{
    reveal_strlit("=");
    let s = column + "="@ + value;
    scan::lemma_find_from(s, "="@, 0);
    assert(s[column.len() as int] == '=');
    assert(s.subrange(column.len() as int, (column.len() + 1) as int) =~= "="@);
    assert(scan::occurs_at(s, "="@, column.len() as int));
    let k = scan::find(s, "="@)->0;
    assert(scan::occurs_at(s, "="@, k));
    assert(s.subrange(k, k + 1)[0] == s[k] && "="@[0] == '=');
    if k < column.len() {
        assert(s[k] == column[k]);
    }
    assert(s.take(k) =~= column);
    assert(s.skip(k + 1) =~= value);
    list::lemma_first_from(headers, equals(column), 0);
    let at = choose|at: int| 0 <= at < headers.len() && headers[at] == column;
    match list::first_from(headers, equals(column), 0) {
        Some(f) => {
            assert(equals(column)(headers[f]));
            assert forall|k: int| 0 <= k < f implies #[trigger] headers[k] != column by {
                assert(!equals(column)(headers[k]));
            }
        },
        None => {
            assert(!equals(column)(headers[at]));
        },
    }
}

proof fn lemma_group_candidates(
    rows: Seq<Vec<String>>,
    headers: Seq<Seq<char>>,
    names: Seq<Seq<char>>,
    sample: int,
)
    ensures
        forall|k: int|
            0 <= k < group_candidates(rows, headers, names, sample).len() ==> is_group_candidate(
                #[trigger] group_candidates(rows, headers, names, sample)[k],
                rows,
                headers,
                sample,
            ) && names.contains(group_candidates(rows, headers, names, sample)[k].0),
        forall|c: (Seq<char>, int)|
            names.contains(c.0) && #[trigger] is_group_candidate(c, rows, headers, sample)
                ==> group_candidates(rows, headers, names, sample).contains(c),
    decreases names.len(),
{
    if names.len() > 0 {
        let front = names.drop_last();
        lemma_group_candidates(rows, headers, front, sample);
        let before = group_candidates(rows, headers, front, sample);
        let all = group_candidates(rows, headers, names, sample);
        assert forall|k: int| 0 <= k < all.len() implies is_group_candidate(
            #[trigger] all[k],
            rows,
            headers,
            sample,
        ) && names.contains(all[k].0) by {
            if k < before.len() {
                assert(all[k] == before[k]);
                assert(front.contains(before[k].0));
                let e = choose|e: int| 0 <= e < front.len() && front[e] == before[k].0;
                assert(names[e] == all[k].0);
            } else {
                assert(names[names.len() - 1] == all[k].0);
            }
        }
        assert forall|c: (Seq<char>, int)|
            names.contains(c.0) && #[trigger] is_group_candidate(
                c,
                rows,
                headers,
                sample,
            ) implies all.contains(c) by {
            let e = choose|e: int| 0 <= e < names.len() && names[e] == c.0;
            if e < names.len() - 1 {
                assert(front[e] == c.0);
                assert(before.contains(c));
                let k = choose|k: int| 0 <= k < before.len() && before[k] == c;
                assert(all[k] == c);
            } else {
                assert(all[all.len() - 1] == c);
            }
        }
    }
}

/// A column by which rows can be grouped, with its number of different words:
/// from two to sixty, in cells that are filled in more than a fifth of the
/// sampled rows, under a name that is not that of an identifier.
pub open spec fn is_group_candidate(
    c: (Seq<char>, int),
    rows: Seq<Vec<String>>,
    headers: Seq<Seq<char>>,
    sample: int,
) -> bool {
    let cells = cells_named(rows, headers, c.0, sample, headers.len() as int);
    &&& c.1 == distinct_words(cells).len()
    &&& 2 <= c.1 <= 60
    &&& sample < 5 * cells.len()
    &&& !is_identifier_name(c.0)
}

/// The `n` of the counted names with the fewest, the fewest first.
pub open spec fn takes_fewest(
    kept: Seq<(Seq<char>, int)>,
    found: Seq<(Seq<char>, int)>,
    n: int,
) -> bool {
    order::takes_highest(kept, found, |c: (Seq<char>, int)| -c.1, n)
}

/// The groups that are detected are columns of the table by which its rows can
/// be grouped, at most `k`, those with the fewest different words first: none
/// that is left out has fewer of them than one that is taken.
pub proof fn law_detected_groups_have_the_fewest_words(
    rows: Seq<Vec<String>>,
    headers: Seq<Seq<char>>,
    k: usize,
)
    ensures
        exists|kept: Seq<(Seq<char>, int)>, found: Seq<(Seq<char>, int)>|
            detected_groups(rows, headers, k) == kept.map_values(|c: (Seq<char>, int)| c.0)
                && #[trigger] takes_fewest(kept, found, k as int) && (forall|
                c: (Seq<char>, int),
            | #[trigger]
                found.contains(c) <==> headers.contains(c.0) && is_group_candidate(
                    c,
                    rows,
                    headers,
                    sample_size(rows, SAMPLED_ROWS),
                )),
{
    let sample = sample_size(rows, SAMPLED_ROWS);
    let key = |h: Seq<char>| h;
    let names = list::distinct_by(headers, key);
    let found = group_candidates(rows, headers, names, sample);
    let rank = |c: (Seq<char>, int)| -c.1;
    let before = fewer_values();
    list::lemma_distinct_by(headers, key);
    lemma_group_candidates(rows, headers, names, sample);
    order::lemma_sorted_permutation(found, before);
    order::lemma_takes_highest(found, before, rank, k as int);
    let kept = answers::at_most(order::sorted(found, before), k as int);
    assert forall|c: (Seq<char>, int)| #[trigger] found.contains(c) <==> headers.contains(c.0)
        && is_group_candidate(c, rows, headers, sample) by {
        if found.contains(c) {
            let e = choose|e: int| 0 <= e < found.len() && found[e] == c;
            assert(names.contains(found[e].0));
            let n = choose|n: int| 0 <= n < names.len() && names[n] == c.0;
            assert(headers.contains(names[n]));
        }
        if headers.contains(c.0) {
            let h = choose|h: int| 0 <= h < headers.len() && headers[h] == c.0;
            let n = choose|n: int| 0 <= n < names.len() && key(#[trigger] names[n]) == key(headers[h]);
            assert(names[n] == c.0);
            assert(names.contains(c.0));
        }
    }
    assert(takes_fewest(kept, found, k as int));
}

proof fn lemma_metric_candidates(
    rows: Seq<Vec<String>>,
    headers: Seq<Seq<char>>,
    groups: Seq<Seq<char>>,
    n: int,
)
    requires
        0 <= n <= headers.len(),
    ensures
        forall|k: int|
            0 <= k < metric_candidates(rows, headers, groups, n).len() ==> is_metric_candidate(
                #[trigger] metric_candidates(rows, headers, groups, n)[k],
                rows,
                headers,
                groups,
            ),
    decreases n,
{
    if n > 0 {
        lemma_metric_candidates(rows, headers, groups, n - 1);
        let before = metric_candidates(rows, headers, groups, n - 1);
        let all = metric_candidates(rows, headers, groups, n);
        assert forall|k: int| 0 <= k < all.len() implies is_metric_candidate(
            #[trigger] all[k],
            rows,
            headers,
            groups,
        ) by {
            if k < before.len() {
                assert(all[k] == before[k]);
            }
        }
    }
}

/// A column that can be measured, with its number of filled cells: it is none of
/// the groups, not the date and no identifier, and at least four fifths of its
/// filled cells are numeric.
pub open spec fn is_metric_candidate(
    c: (int, int),
    rows: Seq<Vec<String>>,
    headers: Seq<Seq<char>>,
    groups: Seq<Seq<char>>,
) -> bool {
    let cells = filled_cells(rows, c.0, sample_size(rows, 1500));
    &&& 0 <= c.0 < headers.len()
    &&& c.1 == cells.len() && c.1 > 0
    &&& !groups.contains(headers[c.0])
    &&& text::lower(headers[c.0]) != text::lower("date"@)
    &&& !is_identifier_name(headers[c.0])
    &&& 4 * cells.len() <= 5 * numeric_cells(cells).len()
}

proof fn lemma_distinct_keeps_order<T, K>(
    s: Seq<T>,
    key: spec_fn(T) -> K,
    rank: spec_fn(T) -> int,
)
    requires
        forall|i: int, j: int|
            0 <= i < j < s.len() ==> rank(#[trigger] s[i]) >= rank(#[trigger] s[j]),
    ensures
        forall|i: int, j: int|
            0 <= i < j < list::distinct_by(s, key).len() ==> rank(
                #[trigger] list::distinct_by(s, key)[i],
            ) >= rank(#[trigger] list::distinct_by(s, key)[j]),
    decreases s.len(),
{
    if s.len() > 0 {
        let front = s.drop_last();
        assert forall|i: int, j: int| 0 <= i < j < front.len() implies rank(#[trigger] front[i])
            >= rank(#[trigger] front[j]) by {
            assert(front[i] == s[i] && front[j] == s[j]);
        }
        lemma_distinct_keeps_order(front, key, rank);
        list::lemma_distinct_by(front, key);
        let before = list::distinct_by(front, key);
        let all = list::distinct_by(s, key);
        assert forall|i: int, j: int| 0 <= i < j < all.len() implies rank(#[trigger] all[i])
            >= rank(#[trigger] all[j]) by {
            assert(all[i] == before[i]);
            if j < before.len() {
                assert(all[j] == before[j]);
            } else {
                assert(front.contains(before[i]));
                let k = choose|k: int| 0 <= k < front.len() && front[k] == before[i];
                assert(s[k] == all[i] && all[j] == s[s.len() - 1]);
            }
        }
    }
}

proof fn lemma_distinct_of_sorted<T, K>(
    all: Seq<T>,
    before: spec_fn(T, T) -> bool,
    key: spec_fn(T) -> K,
    rank: spec_fn(T) -> int,
)
    requires
        forall|a: T, b: T| #[trigger] before(a, b) <==> rank(a) > rank(b),
    ensures
        ({
            let kept = list::distinct_by(order::sorted(all, before), key);
            &&& forall|k: int| 0 <= k < kept.len() ==> all.contains(#[trigger] kept[k])
            &&& forall|i: int, j: int|
                0 <= i < j < kept.len() ==> rank(#[trigger] kept[i]) >= rank(#[trigger] kept[j])
                    && key(kept[i]) != key(kept[j])
        }),
{
    let sorted = order::sorted(all, before);
    order::lemma_sorted_contains(all, before);
    order::lemma_sorted_falls(all, before, rank);
    lemma_distinct_keeps_order(sorted, key, rank);
    list::lemma_distinct_by(sorted, key);
    let kept = list::distinct_by(sorted, key);
    assert forall|k: int| 0 <= k < kept.len() implies all.contains(#[trigger] kept[k]) by {
        assert(sorted.contains(kept[k]));
    }
}

/// The metrics that are detected are columns that can be measured, at most as
/// many as asked for but at least one where there is one, no two of one name,
/// those with the most filled cells first.
pub proof fn law_detected_metrics_are_best_filled(
    rows: Seq<Vec<String>>,
    headers: Seq<Seq<char>>,
    groups: Seq<Seq<char>>,
    max_metrics: usize,
)
    ensures
        ({
            let found = detected_metrics(rows, headers, groups, max_metrics);
            &&& forall|k: int|
                0 <= k < found.len() ==> is_metric_candidate(
                    #[trigger] found[k],
                    rows,
                    headers,
                    groups,
                )
            &&& forall|i: int, j: int|
                0 <= i < j < found.len() ==> (#[trigger] found[i]).1 >= (#[trigger] found[j]).1
                    && headers[found[i].0] != headers[found[j].0]
            &&& found.len() <= (if max_metrics == 0 {
                1
            } else {
                max_metrics as int
            })
        }),
{
    let all = metric_candidates(rows, headers, groups, headers.len() as int);
    let before = better_filled();
    let sorted = order::sorted(all, before);
    let key = |c: (int, int)| headers[c.0];
    let rank = |c: (int, int)| c.1;
    lemma_metric_candidates(rows, headers, groups, headers.len() as int);
    lemma_distinct_of_sorted(all, before, key, rank);
    let distinct = list::distinct_by(sorted, key);
    let found = detected_metrics(rows, headers, groups, max_metrics);
    assert forall|k: int| 0 <= k < found.len() implies is_metric_candidate(
        #[trigger] found[k],
        rows,
        headers,
        groups,
    ) by {
        assert(found[k] == distinct[k]);
        assert(all.contains(distinct[k]));
        let e = choose|e: int| 0 <= e < all.len() && all[e] == distinct[k];
        assert(is_metric_candidate(all[e], rows, headers, groups));
    }
    assert forall|i: int, j: int| 0 <= i < j < found.len() implies (#[trigger] found[i]).1 >= (
    #[trigger] found[j]).1 && headers[found[i].0] != headers[found[j].0] by {
        assert(found[i] == distinct[i] && found[j] == distinct[j]);
        assert(rank(distinct[i]) >= rank(distinct[j]));
        assert(key(distinct[i]) != key(distinct[j]));
    }
}

/// Four fifths of the filled cells of a column are days, and its name is that of
/// a date or a time.
pub open spec fn can_date(rows: Seq<Vec<String>>, headers: Seq<Seq<char>>, i: int) -> bool {
    let cells = filled_cells(rows, i, sample_size(rows, 1000));
    &&& scan::contains(text::lower_case(headers[i]), "date"@) || scan::contains(
        text::lower_case(headers[i]),
        "time"@,
    )
    &&& cells.len() > 0
    &&& 4 * cells.len() <= 5 * day_cells(cells).len()
}

/// The date column is one that can date the rows, and no other such column has a
/// larger part of its filled cells as days. There is one where any can.
pub proof fn law_the_date_column_has_the_most_days(
    rows: Seq<Vec<String>>,
    headers: Seq<Seq<char>>,
    n: int,
)
    requires
        0 <= n <= headers.len(),
    ensures
        match best_date_column(rows, headers, n) {
            Some(b) => 0 <= b < n && can_date(rows, headers, b) && forall|i: int|
                0 <= i < n && #[trigger] can_date(rows, headers, i) ==> ({
                    let mine = filled_cells(rows, b, sample_size(rows, 1000));
                    let other = filled_cells(rows, i, sample_size(rows, 1000));
                    day_cells(other).len() * mine.len() <= day_cells(mine).len() * other.len()
                }),
            None => forall|i: int| 0 <= i < n ==> !#[trigger] can_date(rows, headers, i),
        },
    decreases n,
{
    if n > 0 {
        law_the_date_column_has_the_most_days(rows, headers, n - 1);
        let sample = sample_size(rows, 1000);
        let last = filled_cells(rows, n - 1, sample);
        let (e, f) = (day_cells(last).len(), last.len());
        match best_date_column(rows, headers, n - 1) {
            None => {},
            Some(b) => {
                let mine = filled_cells(rows, b, sample);
                let (x, y) = (day_cells(mine).len(), mine.len());
                if can_date(rows, headers, n - 1) && best_date_column(rows, headers, n) == Some(
                    n - 1,
                ) {
                    assert forall|i: int|
                        0 <= i < n && #[trigger] can_date(rows, headers, i) implies day_cells(
                        filled_cells(rows, i, sample),
                    ).len() * f <= e * filled_cells(rows, i, sample).len() by {
                        let other = filled_cells(rows, i, sample);
                        let (p, q) = (day_cells(other).len(), other.len());
                        if i < n - 1 {
                            lemma_parts(p, q, x, y, e, f);
                        }
                    }
                }
            },
        }
    }
}

proof fn lemma_parts(p: nat, q: nat, x: nat, y: nat, e: nat, f: nat)
    by (nonlinear_arith)
    requires
        p * y <= x * q,
        e * y > x * f,
        y > 0,
    ensures
        p * f <= e * q,
{
    assert(p * y * f <= x * q * f);
    assert(x * f * q <= e * y * q);
    assert(p * f * y <= e * q * y);
}

} // verus!
