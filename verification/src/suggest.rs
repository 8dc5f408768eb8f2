//! Suggestions: what the columns of a table are good for.

use vstd::prelude::*;

use crate::args::{SampleMode, SuggestProfileFormat};
use crate::digits;
use crate::digits::{count_text, decimal_text};
use crate::frames::{check_columns, check_rows};
use crate::groups;
use crate::groups::cell_of;
use crate::json;
use crate::json::quote_json;
use crate::list;
use crate::order;
use crate::order::sort_by;
use crate::periods;
use crate::planner;
use crate::report;
use crate::report::{say, write_page};
use crate::scan;
use crate::scan::{ends, join_text, mentions, replaced_char};
use crate::segments;
use crate::segments::{gather, top_word_counts, Segment};
use crate::table;
use crate::table::{count_days, count_numeric, looks_like_identifier_column};
use crate::text;
use crate::text::{cat2, cat3, cat4, cat5, same, to_lower_case};

verus! {

// ---------------------------------------------------------------------------
// Sampling
// ---------------------------------------------------------------------------

/// The multiplier of the generator.
pub const MULTIPLIER: u64 = 6_364_136_223_846_793_005;

/// The next state of the generator.
pub open spec fn next_state(state: u64) -> u64 {
    ((state * MULTIPLIER + 1) % 0x1_0000_0000_0000_0000) as u64
}

/// A number below a bound, by a linear congruential generator; zero where the
/// bound is zero.
pub fn pseudo_rand_below(state: &mut u64, upper_exclusive: u64) -> (r: u64)
    ensures
        *final(state) == next_state(*old(state)),
        r == (if upper_exclusive == 0 {
            0
        } else {
            *final(state) % upper_exclusive
        }),
        upper_exclusive > 0 ==> r < upper_exclusive,
{
    let wide: u128 = *state as u128;
    assert(wide * 6_364_136_223_846_793_005 <= 0xffff_ffff_ffff_ffff * 6_364_136_223_846_793_005)
        by (nonlinear_arith)
        requires
            wide <= 0xffff_ffff_ffff_ffff,
    ;
    let sum: u128 = wide * 6_364_136_223_846_793_005 + 1;
    *state = (sum % 0x1_0000_0000_0000_0000) as u64;
    if upper_exclusive == 0 {
        0
    } else {
        *state % upper_exclusive
    }
}

/// A reservoir of rows and the state of the generator, after the first `n` rows.
pub open spec fn reservoir(seed: u64, size: int, n: int) -> (Seq<usize>, u64)
    decreases n,
{
    if n <= 0 {
        (Seq::empty(), seed)
    } else {
        let (held, state) = reservoir(seed, size, n - 1);
        if held.len() < size {
            (held.push((n - 1) as usize), state)
        } else {
            let next = next_state(state);
            let j = next as int % n;
            if j < size {
                (held.update(j, (n - 1) as usize), next)
            } else {
                (held, next)
            }
        }
    }
}

/// The rows that are looked at: the first ones, or a random choice.
pub open spec fn sample(total: int, mode: SampleMode, size: int, seed: u64) -> Seq<usize> {
    match mode {
        SampleMode::Head => Seq::new(
            report::least(total, size) as nat,
            |i: int| i as usize,
        ),
        SampleMode::Random => reservoir(seed, size, total).0,
    }
}

/// The rows that are looked at.
pub fn sample_rows(total: usize, mode: SampleMode, size: usize, seed: u64) -> (r: Vec<usize>)
    ensures
        r@ == sample(total as int, mode, size as int, seed),
        r.len() <= size,
        forall|i: int| 0 <= i < r.len() ==> #[trigger] r@[i] < total,
{
    let mut out: Vec<usize> = Vec::new();
    match mode {
        SampleMode::Head => {
            let n: usize = report::lesser(total, size);
            let mut i: usize = 0;
            while i < n
                invariant
                    i <= n <= total,
                    n <= size,
                    out@.len() == i,
                    forall|k: int| 0 <= k < i ==> #[trigger] out@[k] == k,
                decreases n - i,
            {
                out.push(i);
                i += 1;
            }
            assert(out@ =~= sample(total as int, mode, size as int, seed));
        },
        SampleMode::Random => {
            let mut state: u64 = seed;
            let mut i: usize = 0;
            assert(out@ =~= Seq::empty());
            while i < total
                invariant
                    i <= total,
                    (out@, state) == reservoir(seed, size as int, i as int),
                    out@.len() <= size,
                    out@.len() < size ==> out@.len() == i,
                    forall|k: int| 0 <= k < out@.len() ==> #[trigger] out@[k] < total,
                decreases total - i,
            {
                if out.len() < size {
                    out.push(i);
                } else {
                    let j: u64 = pseudo_rand_below(&mut state, i as u64 + 1);
                    if j < size as u64 {
                        out.set(j as usize, i);
                    }
                }
                i += 1;
            }
        },
    }
    out
}

/// A sample holds no more rows than asked for, and only rows that are there.
pub proof fn law_sample_is_within(total: int, mode: SampleMode, size: int, seed: u64)
    requires
        0 <= total <= usize::MAX,
        0 <= size <= usize::MAX,
    ensures
        sample(total, mode, size, seed).len() == report::least(total, size),
        forall|i: int|
            0 <= i < sample(total, mode, size, seed).len() ==> 0 <= #[trigger] sample(
                total,
                mode,
                size,
                seed,
            )[i] < total,
{
    if mode == SampleMode::Random {
        lemma_reservoir(seed, size, total);
    }
}

proof fn lemma_reservoir(seed: u64, size: int, n: int)
    requires
        0 <= n <= usize::MAX,
        0 <= size,
    ensures
        reservoir(seed, size, n).0.len() == report::least(n, size),
        forall|i: int|
            0 <= i < reservoir(seed, size, n).0.len() ==> 0 <= #[trigger] reservoir(
                seed,
                size,
                n,
            ).0[i] < n,
    decreases n,
{
    if n > 0 {
        lemma_reservoir(seed, size, n - 1);
    }
}

// ---------------------------------------------------------------------------
// Roles
// ---------------------------------------------------------------------------

/// What a column is good for.
#[derive(Clone, Copy, Debug, PartialEq, Eq, Structural)]
pub enum ColumnRole {
    Date,
    Dimension,
    Metric,
    NumericOther,
    TextOther,
}

impl ColumnRole {
    pub open spec fn label_text(self) -> Seq<char> {
        match self {
            ColumnRole::Date => "date"@,
            ColumnRole::Dimension => "dimension"@,
            ColumnRole::Metric => "metric"@,
            ColumnRole::NumericOther => "numeric_other"@,
            ColumnRole::TextOther => "text_other"@,
        }
    }

    /// The name of the role.
    pub fn label(self) -> (r: &'static str)
        ensures
            r@ == self.label_text(),
    {
        match self {
            ColumnRole::Date => "date",
            ColumnRole::Dimension => "dimension",
            ColumnRole::Metric => "metric",
            ColumnRole::NumericOther => "numeric_other",
            ColumnRole::TextOther => "text_other",
        }
    }
}

/// What was counted in a column: the rows looked at, the filled cells, those
/// that hold numbers, those that hold dates, and the different ones.
#[derive(Clone, Copy, Debug)]
pub struct ColumnCounts {
    pub sampled: usize,
    pub filled: usize,
    pub numeric: usize,
    pub dates: usize,
    pub distinct: usize,
}

/// At least nine tenths of the filled cells hold dates.
pub open spec fn mostly_dates(c: ColumnCounts) -> bool {
    c.filled > 0 && 10 * c.dates >= 9 * c.filled
}

/// At least 85 of a hundred filled cells hold numbers.
pub open spec fn mostly_numbers(c: ColumnCounts) -> bool {
    c.filled > 0 && 20 * c.numeric >= 17 * c.filled
}

/// At least a fifth of the rows are filled.
pub open spec fn well_filled(c: ColumnCounts) -> bool {
    5 * c.filled >= c.sampled
}

/// A name in lower case that speaks of identifiers or addresses.
pub open spec fn is_id_like(n: Seq<char>) -> bool {
    table::is_identifier_name(n) || scan::contains(n, "uuid"@) || scan::contains(n, "guid"@)
        || scan::ends_with(n, "_url"@) || scan::ends_with(n, "_uri"@)
}

/// A name in lower case that speaks of classes, though they be written as numbers.
pub open spec fn is_class_like(n: Seq<char>) -> bool {
    scan::contains(n, "tier"@) || scan::contains(n, "plan"@) || scan::contains(n, "flag"@)
        || scan::contains(n, "status"@) || scan::contains(n, "bucket"@) || scan::contains(
        n,
        "class"@,
    )
}

/// The role of a column, by its name in lower case and its counts.
pub open spec fn role_of(n: Seq<char>, c: ColumnCounts) -> ColumnRole {
    if mostly_dates(c) || n == "date"@ || scan::ends_with(n, "_date"@) || scan::contains(
        n,
        "timestamp"@,
    ) {
        ColumnRole::Date
    } else if mostly_numbers(c) && well_filled(c) && c.distinct <= 20 && is_class_like(n) {
        ColumnRole::Dimension
    } else if mostly_numbers(c) && !is_id_like(n) {
        ColumnRole::Metric
    } else if !is_id_like(n) && well_filled(c) && 2 <= c.distinct <= 80 {
        ColumnRole::Dimension
    } else if mostly_numbers(c) {
        ColumnRole::NumericOther
    } else {
        ColumnRole::TextOther
    }
}

fn classify(n: &str, c: ColumnCounts) -> (r: ColumnRole)
    ensures
        r == role_of(n@, c),
{
    let filled: u128 = c.filled as u128;
    let numbers: bool = filled > 0 && 20 * (c.numeric as u128) >= 17 * filled;
    let dates: bool = filled > 0 && 10 * (c.dates as u128) >= 9 * filled;
    let full: bool = 5 * filled >= c.sampled as u128;
    if dates || same(n, "date") || ends(n, "_date") || mentions(n, "timestamp") {
        return ColumnRole::Date;
    }
    let class_like: bool = mentions(n, "tier") || mentions(n, "plan") || mentions(n, "flag")
        || mentions(n, "status") || mentions(n, "bucket") || mentions(n, "class");
    if numbers && full && c.distinct <= 20 && class_like {
        return ColumnRole::Dimension;
    }
    let id_like: bool = looks_like_identifier_column(n) || mentions(n, "uuid") || mentions(
        n,
        "guid",
    ) || ends(n, "_url") || ends(n, "_uri");
    if numbers && !id_like {
        return ColumnRole::Metric;
    }
    if !id_like && full && 2 <= c.distinct && c.distinct <= 80 {
        return ColumnRole::Dimension;
    }
    if numbers {
        return ColumnRole::NumericOther;
    }
    ColumnRole::TextOther
}

/// The role of a column.
pub fn infer_column_role(name: &str, counts: ColumnCounts) -> (r: ColumnRole)
    ensures
        r == role_of(text::lower_case(name@), counts),
{
    let n = to_lower_case(name);
    classify(n.as_str(), counts)
}

/// A column that holds identifiers by its name is never taken for a dimension,
/// unless its name also speaks of classes.
pub proof fn law_identifiers_are_no_dimensions(n: Seq<char>, c: ColumnCounts)
    requires
        is_id_like(n),
        !is_class_like(n),
    ensures
        role_of(n, c) != ColumnRole::Dimension,
        role_of(n, c) != ColumnRole::Metric,
{
}

/// How likely a column is the metric of interest, by its name in lower case.
pub open spec fn priority_of(n: Seq<char>) -> int {
    if scan::contains(n, "revenue"@) || scan::contains(n, "gmv"@) || scan::contains(n, "sales"@)
        || scan::contains(n, "amount"@) {
        3
    } else if scan::contains(n, "cost"@) || scan::contains(n, "profit"@) || scan::contains(
        n,
        "margin"@,
    ) {
        2
    } else if scan::contains(n, "qty"@) || scan::contains(n, "quantity"@) || scan::contains(
        n,
        "count"@,
    ) || scan::contains(n, "orders"@) {
        1
    } else {
        0
    }
}

/// How likely a column is the metric of interest, by its name.
pub fn metric_priority(name: &str) -> (r: i32)
    ensures
        r == priority_of(text::lower_case(name@)),
{
    let lowered = to_lower_case(name);
    let n = lowered.as_str();
    if mentions(n, "revenue") || mentions(n, "gmv") || mentions(n, "sales") || mentions(
        n,
        "amount",
    ) {
        return 3;
    }
    if mentions(n, "cost") || mentions(n, "profit") || mentions(n, "margin") {
        return 2;
    }
    if mentions(n, "qty") || mentions(n, "quantity") || mentions(n, "count") || mentions(
        n,
        "orders",
    ) {
        return 1;
    }
    0
}

// ---------------------------------------------------------------------------
// Columns
// ---------------------------------------------------------------------------

/// The filled cells of a column in the rows looked at, trimmed.
pub open spec fn sampled_cells(
    rows: Seq<Vec<String>>,
    picked: Seq<usize>,
    idx: int,
    n: int,
) -> Seq<Seq<char>>
    decreases n,
{
    if n <= 0 {
        Seq::empty()
    } else {
        let front = sampled_cells(rows, picked, idx, n - 1);
        let c = groups::cell(rows[picked[n - 1] as int]@, idx);
        if c.len() > 0 {
            front.push(c)
        } else {
            front
        }
    }
}

fn collect_cells(rows: &Vec<Vec<String>>, picked: &Vec<usize>, idx: usize) -> (r: Vec<String>)
    requires
        forall|i: int| 0 <= i < picked@.len() ==> #[trigger] picked@[i] < rows@.len(),
    ensures
        text::views(r@) == sampled_cells(rows@, picked@, idx as int, picked@.len() as int),
        r.len() <= picked.len(),
{
    let mut out: Vec<String> = Vec::new();
    let mut i: usize = 0;
    assert(text::views(out@) =~= Seq::empty());
    while i < picked.len()
        invariant
            i <= picked.len(),
            out.len() <= i,
            forall|i: int| 0 <= i < picked@.len() ==> #[trigger] picked@[i] < rows@.len(),
            text::views(out@) == sampled_cells(rows@, picked@, idx as int, i as int),
        decreases picked.len() - i,
    {
        let ghost before = text::views(out@);
        let c = cell_of(&rows[picked[i]], idx);
        if !c.as_str().is_empty() {
            out.push(c);
            assert(text::views(out@) =~= before.push(c@));
        }
        i += 1;
    }
    out
}

pub open spec fn begins_earlier(a: (String, u64, usize), b: (String, u64, usize)) -> bool {
    a.2 < b.2
}

pub open spec fn first_come() -> spec_fn((String, u64, usize), (String, u64, usize)) -> bool {
    |a: (String, u64, usize), b: (String, u64, usize)| begins_earlier(a, b)
}

/// A value with its count and the place where it comes first.
pub open spec fn dated_tally(segs: Seq<Segment>) -> Seq<(Seq<char>, int, int)> {
    Seq::new(
        segs.len(),
        |i: int| (segs[i].key@, segs[i].rows@.len() as int, segs[i].rows@[0] as int),
    )
}

pub open spec fn dated_views(s: Seq<(String, u64, usize)>) -> Seq<(Seq<char>, int, int)> {
    Seq::new(s.len(), |i: int| (s[i].0@, s[i].1 as int, s[i].2 as int))
}

/// The counted values: the 300 that come first.
pub open spec fn counted_values(all: Seq<(String, u64, usize)>) -> Seq<(Seq<char>, int)> {
    crate::answers::at_most(order::sorted(all, first_come()), 300).map_values(
        |x: (String, u64, usize)| (x.0@, x.1 as int),
    )
}

/// The values are the five most frequent of those counted.
pub open spec fn are_top_values(top: Seq<(String, u64)>, cells: Seq<Seq<char>>) -> bool {
    exists|segs: Seq<Segment>, all: Seq<(String, u64, usize)>, counts: Seq<(String, u64)>|
        segments::gathers(segs, cells, cells.len() as int) && #[trigger] dated_views(all)
            == #[trigger] dated_tally(segs) && #[trigger] segments::tally_views(counts)
            == counted_values(all) && top == crate::answers::at_most(
            order::sorted(
                counts,
                |a: (String, u64), b: (String, u64)| segments::more_frequent(a, b),
            ),
            5,
        )
}

#[verifier::loop_isolation(false)]
fn find_top_values(cells: &Vec<String>) -> (r: Vec<(String, u64)>)
    ensures
        are_top_values(r@, text::views(cells@)),
{
    let segs = gather(cells);
    let mut all: Vec<(String, u64, usize)> = Vec::new();
    let mut i: usize = 0;
    while i < segs.len()
        invariant
            i <= segs.len(),
            all.len() == i,
            forall|k: int|
                0 <= k < i ==> (#[trigger] all@[k]).0@ == segs@[k].key@ && all@[k].1
                    == segs@[k].rows@.len() && all@[k].2 == segs@[k].rows@[0],
        decreases segs.len() - i,
    {
        assert(segs@[i as int].rows@.len() > 0);
        all.push((segs[i].key.clone(), segs[i].rows.len() as u64, segs[i].rows[0]));
        i += 1;
    }
    assert(dated_views(all@) =~= dated_tally(segs@));
    let ghost unsorted = all@;
    let precedes = |a: &(String, u64, usize), b: &(String, u64, usize)| -> (x: bool)
        ensures
            x == begins_earlier(*a, *b),
        { a.2 < b.2 };
    let mut first = sort_by(all, precedes, Ghost(first_come()));
    first.truncate(300);
    assert(first@ == crate::answers::at_most(order::sorted(unsorted, first_come()), 300));
    let mut counts: Vec<(String, u64)> = Vec::new();
    let mut k: usize = 0;
    while k < first.len()
        invariant
            k <= first.len(),
            counts.len() == k,
            forall|j: int|
                0 <= j < k ==> (#[trigger] counts@[j]).0@ == first@[j].0@ && counts@[j].1
                    == first@[j].1,
        decreases first.len() - k,
    {
        counts.push((first[k].0.clone(), first[k].1));
        k += 1;
    }
    assert(segments::tally_views(counts@) =~= counted_values(unsorted));
    let ghost listed = counts@;
    let top = top_word_counts(counts, 5);
    assert(top@ == crate::answers::at_most(
        order::sorted(listed, |a: (String, u64), b: (String, u64)| segments::more_frequent(a, b)),
        5,
    ));
    assert(dated_views(unsorted) == dated_tally(segs@));
    assert(segments::tally_views(listed) == counted_values(unsorted));
    top
}

/// A column with its role.
#[derive(Clone, Debug)]
pub struct SuggestColumn {
    pub name: String,
    pub counts: ColumnCounts,
    pub distinct_count: usize,
    pub role: ColumnRole,
    pub top_values: Vec<(String, u64)>,
}

/// The number of different cells that is reported: no more than 2000 are counted.
pub open spec fn reported_distinct(cells: Seq<Seq<char>>) -> int {
    report::least(list::distinct_by(cells, |k: Seq<char>| k).len() as int, 2000)
}

/// The column is what the rows looked at show of it.
pub open spec fn is_profile(
    col: SuggestColumn,
    name: Seq<char>,
    rows: Seq<Vec<String>>,
    picked: Seq<usize>,
    idx: int,
) -> bool {
    let cells = sampled_cells(rows, picked, idx, picked.len() as int);
    &&& col.name@ == name
    &&& col.counts.sampled == picked.len()
    &&& col.counts.filled == cells.len()
    &&& col.counts.numeric == table::numeric_cells(cells).len()
    &&& col.counts.dates == table::day_cells(cells).len()
    &&& col.counts.distinct == reported_distinct(cells)
    &&& col.distinct_count == col.counts.distinct
    &&& col.role == role_of(text::lower_case(name), col.counts)
    &&& are_top_values(col.top_values@, cells)
}

/// A cell of a column cannot be cut at its tenth byte.
pub open spec fn cells_blocked(cells: Seq<Seq<char>>) -> bool {
    exists|i: int| 0 <= i < cells.len() && !periods::is_sliceable(text::trim(#[trigger] cells[i]))
}

/// Profiles a column. There is no answer where a cell that looks like a date
/// has a multi-byte character across its tenth byte.
pub fn profile_column(
    name: &str,
    rows: &Vec<Vec<String>>,
    picked: &Vec<usize>,
    idx: usize,
) -> (r: Option<SuggestColumn>)
    requires
        forall|i: int| 0 <= i < picked@.len() ==> #[trigger] picked@[i] < rows@.len(),
    ensures
        match r {
            Some(c) => is_profile(c, name@, rows@, picked@, idx as int) && !cells_blocked(
                sampled_cells(rows@, picked@, idx as int, picked@.len() as int),
            ),
            None => cells_blocked(
                sampled_cells(rows@, picked@, idx as int, picked@.len() as int),
            ),
        },
{
    let cells = collect_cells(rows, picked, idx);
    let dates: usize = match count_days(&cells) {
        Some(n) => n,
        None => {
            return None;
        },
    };
    let numeric: usize = count_numeric(&cells);
    let all: usize = segments::count_distinct(&cells);
    let distinct: usize = report::lesser(all, 2000);
    let counts = ColumnCounts {
        sampled: picked.len(),
        filled: cells.len(),
        numeric,
        dates,
        distinct,
    };
    assert(text::views(cells@).len() == cells@.len());
    let role = infer_column_role(name, counts);
    let top_values = find_top_values(&cells);
    Some(
        SuggestColumn { name: name.to_owned(), counts, distinct_count: distinct, role, top_values },
    )
}

// ---------------------------------------------------------------------------
// Suggestions
// ---------------------------------------------------------------------------

/// A column as a candidate: its place, and the figures by which it is ranked.
#[derive(Clone, Copy, Debug)]
pub struct Candidate {
    pub place: usize,
    pub filled: usize,
    pub weight: usize,
}

/// How far a number of different cells is from twelve.
pub open spec fn penalty(distinct: int) -> int {
    if distinct > 12 {
        distinct - 12
    } else {
        12 - distinct
    }
}

/// The columns with a role among the first `n`, weighted.
pub open spec fn candidates(
    columns: Seq<SuggestColumn>,
    role: ColumnRole,
    n: int,
) -> Seq<Candidate>
    decreases n,
{
    if n <= 0 {
        Seq::empty()
    } else {
        let front = candidates(columns, role, n - 1);
        let c = columns[n - 1];
        if c.role == role {
            front.push(
                Candidate {
                    place: (n - 1) as usize,
                    filled: c.counts.filled,
                    weight: if role == ColumnRole::Metric {
                        priority_of(text::lower_case(c.name@)) as usize
                    } else {
                        penalty(c.distinct_count as int) as usize
                    },
                },
            )
        } else {
            front
        }
    }
}

fn find_candidates(columns: &Vec<SuggestColumn>, role: ColumnRole) -> (r: Vec<Candidate>)
    ensures
        r@ == candidates(columns@, role, columns@.len() as int),
        forall|i: int| 0 <= i < r@.len() ==> (#[trigger] r@[i]).place < columns@.len(),
{
    let mut out: Vec<Candidate> = Vec::new();
    let mut i: usize = 0;
    while i < columns.len()
        invariant
            i <= columns.len(),
            out@ == candidates(columns@, role, i as int),
            forall|i: int| 0 <= i < out@.len() ==> (#[trigger] out@[i]).place < columns@.len(),
        decreases columns.len() - i,
    {
        if columns[i].role == role {
            let d: usize = columns[i].distinct_count;
            let weight: usize = if role == ColumnRole::Metric {
                metric_priority(columns[i].name.as_str()) as usize
            } else if d > 12 {
                d - 12
            } else {
                12 - d
            };
            out.push(Candidate { place: i, filled: columns[i].counts.filled, weight });
        }
        i += 1;
    }
    out
}

/// The better dimension: nearer to twelve different cells, or as near and fuller.
pub open spec fn better_dimension(a: Candidate, b: Candidate) -> bool {
    a.weight < b.weight || (a.weight == b.weight && b.filled < a.filled)
}

pub open spec fn dimension_order() -> spec_fn(Candidate, Candidate) -> bool {
    |a: Candidate, b: Candidate| better_dimension(a, b)
}

/// The better metric: likelier by its name, or as likely and fuller.
pub open spec fn better_metric(a: Candidate, b: Candidate) -> bool {
    b.weight < a.weight || (a.weight == b.weight && b.filled < a.filled)
}

pub open spec fn metric_order() -> spec_fn(Candidate, Candidate) -> bool {
    |a: Candidate, b: Candidate| better_metric(a, b)
}

/// The names of the best candidates.
pub open spec fn best_names(
    columns: Seq<SuggestColumn>,
    ranked: Seq<Candidate>,
    limit: int,
) -> Seq<Seq<char>> {
    crate::answers::at_most(ranked, limit).map_values(|c: Candidate| columns[c.place as int].name@)
}

fn take_names(columns: &Vec<SuggestColumn>, ranked: &Vec<Candidate>, limit: usize) -> (r: Vec<
    String,
>)
    requires
        forall|i: int| 0 <= i < ranked@.len() ==> (#[trigger] ranked@[i]).place < columns@.len(),
    ensures
        text::views(r@) == best_names(columns@, ranked@, limit as int),
{
    let n: usize = report::lesser(ranked.len(), limit);
    let mut out: Vec<String> = Vec::new();
    let mut i: usize = 0;
    while i < n
        invariant
            i <= n <= ranked.len(),
            out.len() == i,
            forall|i: int|
                0 <= i < ranked@.len() ==> (#[trigger] ranked@[i]).place < columns@.len(),
            forall|k: int|
                0 <= k < i ==> (#[trigger] out@[k])@ == columns@[ranked@[k].place as int].name@,
        decreases n - i,
    {
        assert(ranked@[i as int].place < columns@.len());
        out.push(columns[ranked[i].place].name.clone());
        i += 1;
    }
    assert(text::views(out@) =~= best_names(columns@, ranked@, limit as int));
    out
}

proof fn lemma_sorted_places(
    items: Seq<Candidate>,
    before: spec_fn(Candidate, Candidate) -> bool,
    n: int,
)
    requires
        forall|i: int| 0 <= i < items.len() ==> (#[trigger] items[i]).place < n,
    ensures
        forall|i: int|
            0 <= i < order::sorted(items, before).len() ==> (#[trigger] order::sorted(
                items,
                before,
            )[i]).place < n,
{
    broadcast use vstd::seq_lib::group_to_multiset_ensures;

    order::lemma_sorted_permutation(items, before);
    let out = order::sorted(items, before);
    assert forall|i: int| 0 <= i < out.len() implies (#[trigger] out[i]).place < n by {
        assert(out.to_multiset().count(out[i]) > 0);
        assert(items.contains(out[i]));
        let j = choose|j: int| 0 <= j < items.len() && items[j] == out[i];
        assert(items[j].place < n);
    }
}

/// The columns to group by: dimensions with about twelve different cells first.
pub fn suggest_groups(columns: &Vec<SuggestColumn>, limit: usize) -> (r: Vec<String>)
    ensures
        text::views(r@) == best_names(
            columns@,
            order::sorted(
                candidates(columns@, ColumnRole::Dimension, columns@.len() as int),
                dimension_order(),
            ),
            limit as int,
        ),
{
    let found = find_candidates(columns, ColumnRole::Dimension);
    proof {
        lemma_sorted_places(found@, dimension_order(), columns@.len() as int);
    }
    let precedes = |a: &Candidate, b: &Candidate| -> (x: bool)
        ensures
            x == better_dimension(*a, *b),
        { a.weight < b.weight || (a.weight == b.weight && b.filled < a.filled) };
    let ranked = sort_by(found, precedes, Ghost(dimension_order()));
    take_names(columns, &ranked, limit)
}

/// The columns to measure: the likeliest first.
pub fn suggest_metrics(columns: &Vec<SuggestColumn>, limit: usize) -> (r: Vec<String>)
    ensures
        text::views(r@) == best_names(
            columns@,
            order::sorted(
                candidates(columns@, ColumnRole::Metric, columns@.len() as int),
                metric_order(),
            ),
            limit as int,
        ),
{
    let found = find_candidates(columns, ColumnRole::Metric);
    proof {
        lemma_sorted_places(found@, metric_order(), columns@.len() as int);
    }
    let precedes = |a: &Candidate, b: &Candidate| -> (x: bool)
        ensures
            x == better_metric(*a, *b),
        { b.weight < a.weight || (a.weight == b.weight && b.filled < a.filled) };
    let ranked = sort_by(found, precedes, Ghost(metric_order()));
    take_names(columns, &ranked, limit)
}

/// The fullest date column among the first `n`, of equally full ones the last.
pub open spec fn fullest_date(columns: Seq<SuggestColumn>, n: int) -> Option<int>
    decreases n,
{
    if n <= 0 {
        None
    } else {
        let front = fullest_date(columns, n - 1);
        if columns[n - 1].role != ColumnRole::Date {
            front
        } else {
            match front {
                None => Some(n - 1),
                Some(b) => if columns[n - 1].counts.filled < columns[b].counts.filled {
                    front
                } else {
                    Some(n - 1)
                },
            }
        }
    }
}

/// The column of the dates.
pub fn suggest_date_column(columns: &Vec<SuggestColumn>) -> (r: Option<String>)
    ensures
        planner::optional_text(r) == (match fullest_date(columns@, columns@.len() as int) {
            Some(i) => Some(columns@[i].name@),
            None => None,
        }),
{
    let mut best: Option<usize> = None;
    let mut i: usize = 0;
    while i < columns.len()
        invariant
            i <= columns.len(),
            match best {
                Some(b) => b < i && fullest_date(columns@, i as int) == Some(b as int),
                None => fullest_date(columns@, i as int) is None,
            },
        decreases columns.len() - i,
    {
        if columns[i].role == ColumnRole::Date {
            match best {
                None => {
                    best = Some(i);
                },
                Some(b) => {
                    if !(columns[i].counts.filled < columns[b].counts.filled) {
                        best = Some(i);
                    }
                },
            }
        }
        i += 1;
    }
    match best {
        Some(b) => Some(columns[b].name.clone()),
        None => None,
    }
}

/// The texts of a column's shares: of filled cells in percent, of numbers and of dates.
#[derive(Clone, Debug)]
pub struct ColumnTexts {
    pub fill: String,
    pub numeric: String,
    pub dates: String,
}

/// The warnings about identifiers among the first `n` columns.
pub open spec fn identifier_warnings(
    out: Seq<Seq<char>>,
    columns: Seq<SuggestColumn>,
    n: int,
) -> Seq<Seq<char>>
    decreases n,
{
    if n <= 0 {
        out
    } else {
        let out = identifier_warnings(out, columns, n - 1);
        let c = columns[n - 1];
        if table::is_identifier_name(c.name@) && well_filled(c.counts) {
            out.push("Identifier-like column '"@ + c.name@ + "' was excluded from suggestions."@)
        } else {
            out
        }
    }
}

/// The warnings about sparse dimensions among the first `n` columns.
pub open spec fn sparse_warnings(
    out: Seq<Seq<char>>,
    columns: Seq<SuggestColumn>,
    texts: Seq<ColumnTexts>,
    n: int,
) -> Seq<Seq<char>>
    decreases n,
{
    if n <= 0 {
        out
    } else {
        let out = sparse_warnings(out, columns, texts, n - 1);
        let c = columns[n - 1];
        if 10 * c.counts.filled < 3 * c.counts.sampled && c.role == ColumnRole::Dimension {
            out.push(
                "Dimension '"@ + c.name@ + "' has low fill rate ("@ + texts[n - 1].fill@ + "%)."@,
            )
        } else {
            out
        }
    }
}

/// All warnings.
pub open spec fn warnings_of(
    columns: Seq<SuggestColumn>,
    texts: Seq<ColumnTexts>,
    groups: int,
    metrics: int,
) -> Seq<Seq<char>> {
    let out: Seq<Seq<char>> = Seq::empty();
    let out = if groups == 0 {
        out.push("No strong dimension columns detected. Pass --group-by manually."@)
    } else {
        out
    };
    let out = if metrics == 0 {
        out.push("No strong metric columns detected. Pass --metrics manually."@)
    } else {
        out
    };
    sparse_warnings(
        identifier_warnings(out, columns, columns.len() as int),
        columns,
        texts,
        columns.len() as int,
    )
}

/// The warnings that come with suggestions. `groups` and `metrics` are the
/// numbers of columns suggested.
#[verifier::loop_isolation(false)]
pub fn collect_warnings(
    columns: &Vec<SuggestColumn>,
    texts: &Vec<ColumnTexts>,
    groups: usize,
    metrics: usize,
) -> (r: Vec<String>)
    requires
        texts.len() == columns.len(),
    ensures
        text::views(r@) == warnings_of(columns@, texts@, groups as int, metrics as int),
{
    let mut out: Vec<String> = Vec::new();
    assert(text::views(out@) =~= Seq::empty());
    if groups == 0 {
        say(
            &mut out,
            "No strong dimension columns detected. Pass --group-by manually.".to_owned(),
        );
    }
    if metrics == 0 {
        say(&mut out, "No strong metric columns detected. Pass --metrics manually.".to_owned());
    }
    let ghost first = text::views(out@);
    let mut i: usize = 0;
    while i < columns.len()
        invariant
            i <= columns.len(),
            text::views(out@) == identifier_warnings(first, columns@, i as int),
        decreases columns.len() - i,
    {
        let c = &columns[i];
        if looks_like_identifier_column(c.name.as_str()) && 5 * (c.counts.filled as u128)
            >= c.counts.sampled as u128 {
            say(
                &mut out,
                cat3(
                    "Identifier-like column '",
                    c.name.as_str(),
                    "' was excluded from suggestions.",
                ),
            );
        }
        i += 1;
    }
    let ghost second = text::views(out@);
    let mut k: usize = 0;
    while k < columns.len()
        invariant
            k <= columns.len(),
            text::views(out@) == sparse_warnings(second, columns@, texts@, k as int),
        decreases columns.len() - k,
    {
        let c = &columns[k];
        if 10 * (c.counts.filled as u128) < 3 * (c.counts.sampled as u128) && c.role
            == ColumnRole::Dimension {
            say(
                &mut out,
                cat5(
                    "Dimension '",
                    c.name.as_str(),
                    "' has low fill rate (",
                    texts[k].fill.as_str(),
                    "%).",
                ),
            );
        }
        k += 1;
    }
    out
}

/// Everything that is suggested for a table.
#[derive(Clone, Debug)]
pub struct AnalyzeSuggestReport {
    pub input: String,
    pub sampled_rows: usize,
    pub sample_mode: SampleMode,
    pub sample_seed: u64,
    pub profile_name: String,
    pub suggested_group_by: Vec<String>,
    pub suggested_metrics: Vec<String>,
    pub suggested_rank_by: Option<String>,
    pub suggested_date_column: Option<String>,
    pub warnings: Vec<String>,
    pub columns: Vec<SuggestColumn>,
}

/// Profiles the columns of a table on a sample of its rows; gives the number
/// of sampled rows too. There is no answer where the date of a sampled cell
/// cannot be told.
pub fn profile_table(
    headers: &Vec<String>,
    rows: &Vec<Vec<String>>,
    mode: SampleMode,
    size: usize,
    seed: u64,
) -> (r: Option<Result<(Vec<SuggestColumn>, usize), String>>)
    ensures
        ({
            let picked = sample(rows@.len() as int, mode, size as int, seed);
            match r {
                None => headers@.len() > 0 && picked.len() > 0 && exists|i: int|
                    0 <= i < headers@.len() && cells_blocked(
                        #[trigger] sampled_cells(rows@, picked, i, picked.len() as int),
                    ),
                Some(Err(e)) => if headers@.len() == 0 {
                    e@ == "input CSV has no columns"@
                } else {
                    picked.len() == 0 && e@ == "input CSV has no rows"@
                },
                Some(Ok(p)) => headers@.len() > 0 && picked.len() > 0 && p.1 == picked.len()
                    && p.0@.len() == headers@.len() && forall|i: int|
                    0 <= i < headers@.len() ==> is_profile(
                        #[trigger] p.0@[i],
                        headers@[i]@,
                        rows@,
                        picked,
                        i,
                    ),
            }
        }),
{
    match check_columns(headers.len()) {
        Ok(_) => {},
        Err(e) => {
            return Some(Err(e));
        },
    }
    let picked = sample_rows(rows.len(), mode, size, seed);
    match check_rows(picked.len()) {
        Ok(_) => {},
        Err(e) => {
            return Some(Err(e));
        },
    }
    let mut columns: Vec<SuggestColumn> = Vec::new();
    let mut i: usize = 0;
    while i < headers.len()
        invariant
            i <= headers.len(),
            columns.len() == i,
            headers.len() > 0,
            picked.len() > 0,
            picked@ == sample(rows@.len() as int, mode, size as int, seed),
            forall|k: int| 0 <= k < picked@.len() ==> #[trigger] picked@[k] < rows@.len(),
            forall|k: int|
                0 <= k < i ==> is_profile(
                    #[trigger] columns@[k],
                    headers@[k]@,
                    rows@,
                    picked@,
                    k,
                ),
        decreases headers.len() - i,
    {
        match profile_column(headers[i].as_str(), rows, &picked, i) {
            Some(c) => {
                columns.push(c);
            },
            None => {
                assert(cells_blocked(
                    sampled_cells(rows@, picked@, i as int, picked@.len() as int),
                ));
                return None;
            },
        }
        i += 1;
    }
    Some(Ok((columns, picked.len())))
}

/// What a suggestion is asked to do.
#[derive(Clone, Debug)]
pub struct SuggestRequest {
    pub input: String,
    pub sample_mode: SampleMode,
    pub sample_seed: u64,
    pub profile_name: String,
    pub auto_group_k: usize,
    pub max_metrics: usize,
}

/// Suggests how to analyse a table whose columns are profiled.
pub fn suggest_analysis(
    req: &SuggestRequest,
    columns: Vec<SuggestColumn>,
    texts: &Vec<ColumnTexts>,
    sampled_rows: usize,
) -> (r: AnalyzeSuggestReport)
    requires
        texts.len() == columns.len(),
    ensures
        r.input == req.input,
        r.sampled_rows == sampled_rows,
        r.sample_mode == req.sample_mode,
        r.sample_seed == req.sample_seed,
        r.profile_name == req.profile_name,
        text::views(r.suggested_group_by@) == best_names(
            columns@,
            order::sorted(
                candidates(columns@, ColumnRole::Dimension, columns@.len() as int),
                dimension_order(),
            ),
            req.auto_group_k as int,
        ),
        text::views(r.suggested_metrics@) == best_names(
            columns@,
            order::sorted(
                candidates(columns@, ColumnRole::Metric, columns@.len() as int),
                metric_order(),
            ),
            req.max_metrics as int,
        ),
        planner::optional_text(r.suggested_rank_by) == (if r.suggested_metrics@.len() > 0 {
            Some(r.suggested_metrics@[0]@)
        } else {
            None
        }),
        planner::optional_text(r.suggested_date_column) == (match fullest_date(
            columns@,
            columns@.len() as int,
        ) {
            Some(i) => Some(columns@[i].name@),
            None => None,
        }),
        text::views(r.warnings@) == warnings_of(
            columns@,
            texts@,
            r.suggested_group_by@.len() as int,
            r.suggested_metrics@.len() as int,
        ),
        r.columns@ == columns@,
{
    let suggested_group_by = suggest_groups(&columns, req.auto_group_k);
    let suggested_metrics = suggest_metrics(&columns, req.max_metrics);
    let suggested_rank_by = if suggested_metrics.len() > 0 {
        Some(suggested_metrics[0].clone())
    } else {
        None
    };
    let suggested_date_column = suggest_date_column(&columns);
    let warnings = collect_warnings(
        &columns,
        texts,
        suggested_group_by.len(),
        suggested_metrics.len(),
    );
    AnalyzeSuggestReport {
        input: req.input.clone(),
        sampled_rows,
        sample_mode: req.sample_mode,
        sample_seed: req.sample_seed,
        profile_name: req.profile_name.clone(),
        suggested_group_by,
        suggested_metrics,
        suggested_rank_by,
        suggested_date_column,
        warnings,
        columns,
    }
}

pub open spec fn sample_mode_text(mode: SampleMode) -> Seq<char> {
    match mode {
        SampleMode::Head => "head"@,
        SampleMode::Random => "random"@,
    }
}

/// The name of a way of sampling.
pub fn sample_mode_label(mode: SampleMode) -> (r: &'static str)
    ensures
        r@ == sample_mode_text(mode),
{
    match mode {
        SampleMode::Head => "head",
        SampleMode::Random => "random",
    }
}

/// Texts between quotation marks.
pub open spec fn quoted(names: Seq<Seq<char>>) -> Seq<Seq<char>> {
    names.map_values(|n: Seq<char>| "\""@ + n + "\""@)
}

fn quote_all(names: &Vec<String>) -> (r: Vec<String>)
    ensures
        text::views(r@) == quoted(text::views(names@)),
{
    let mut out: Vec<String> = Vec::new();
    let mut i: usize = 0;
    while i < names.len()
        invariant
            i <= names.len(),
            out.len() == i,
            forall|k: int| 0 <= k < i ==> (#[trigger] out@[k])@ == "\""@ + names@[k]@ + "\""@,
        decreases names.len() - i,
    {
        out.push(cat3("\"", names[i].as_str(), "\""));
        i += 1;
    }
    assert(text::views(out@) =~= quoted(text::views(names@)));
    out
}

/// A value with its count.
pub open spec fn write_values_lines(out: Seq<Seq<char>>, items: Seq<(String, u64)>, n: int) -> Seq<Seq<char>>
    decreases n,
{
    if n <= 0 {
        out
    } else {
        let out = write_values_lines(out, items, n - 1);
        let x = items[n - 1];
        let out = out.push(scan::replace_char(x.0@, '|', "\\|"@) + " ("@ + digits::decimal(x.1 as nat) + ")"@);
        out
    }
}

/// A value with its count.
#[verifier::loop_isolation(false)]
pub fn write_values(out: &mut Vec<String>, items: &Vec<(String, u64)>)
    ensures
        text::views(final(out)@) == write_values_lines(text::views(old(out)@), items@, items@.len() as int),
{
    let mut i: usize = 0;
    while i < items.len()
        invariant
            i <= items.len(),
            text::views(out@) == write_values_lines(text::views(old(out)@), items@, i as int),
        decreases items.len() - i,
    {
        let x = &items[i];
        say(out, cat4(replaced_char(x.0.as_str(), '|', "\\|").as_str(), " (", decimal_text(x.1).as_str(), ")"));
        i += 1;
    }
}

/// A row for each column.
pub open spec fn write_columns_lines(out: Seq<Seq<char>>, items: Seq<SuggestColumn>, texts: Seq<ColumnTexts>, n: int) -> Seq<Seq<char>>
    decreases n,
{
    if n <= 0 {
        out
    } else {
        let out = write_columns_lines(out, items, texts, n - 1);
        let x = items[n - 1];
        let t = texts[n - 1];
        let listed = scan::join(write_values_lines(Seq::empty(), x.top_values@, x.top_values@.len() as int), "; "@);
        let out = out.push("| "@ + x.name@ + " | "@ + x.role.label_text() + " | "@ + t.fill@ + "% | "@ + digits::decimal(x.distinct_count as nat) + " | "@ + t.numeric@ + " | "@ + t.dates@ + " | "@ + listed + " |"@);
        out
    }
}

/// A row for each column.
#[verifier::loop_isolation(false)]
pub fn write_columns(out: &mut Vec<String>, items: &Vec<SuggestColumn>, texts: &Vec<ColumnTexts>)
    requires
        texts.len() == items.len(),
    ensures
        text::views(final(out)@) == write_columns_lines(text::views(old(out)@), items@, texts@, items@.len() as int),
{
    let mut i: usize = 0;
    while i < items.len()
        invariant
            i <= items.len(),
            text::views(out@) == write_columns_lines(text::views(old(out)@), items@, texts@, i as int),
        decreases items.len() - i,
    {
        let x = &items[i];
        let t = &texts[i];
        let mut values: Vec<String> = Vec::new();
        proof {
            assert(text::views(values@) =~= Seq::empty());
        }
        write_values(&mut values, &x.top_values);
        let listed = join_text(&values, "; ");
        let mut line = cat5("| ", x.name.as_str(), " | ", x.role.label(), " | ");
        line.append(t.fill.as_str());
        line.append("% | ");
        line.append(count_text(x.distinct_count).as_str());
        line.append(" | ");
        line.append(t.numeric.as_str());
        line.append(" | ");
        line.append(t.dates.as_str());
        line.append(" | ");
        line.append(listed.as_str());
        line.append(" |");
        say(out, line);
        i += 1;
    }
}

/// A line for each warning.
pub open spec fn write_warnings_lines(out: Seq<Seq<char>>, items: Seq<String>, n: int) -> Seq<Seq<char>>
    decreases n,
{
    if n <= 0 {
        out
    } else {
        let out = write_warnings_lines(out, items, n - 1);
        let x = items[n - 1];
        let out = out.push("- "@ + x@);
        out
    }
}

/// A line for each warning.
#[verifier::loop_isolation(false)]
pub fn write_warnings(out: &mut Vec<String>, items: &Vec<String>)
    ensures
        text::views(final(out)@) == write_warnings_lines(text::views(old(out)@), items@, items@.len() as int),
{
    let mut i: usize = 0;
    while i < items.len()
        invariant
            i <= items.len(),
            text::views(out@) == write_warnings_lines(text::views(old(out)@), items@, i as int),
        decreases items.len() - i,
    {
        let x = &items[i];
        say(out, cat2("- ", x.as_str()));
        i += 1;
    }
}

/// All sections of the suggestions.
pub open spec fn write_suggest_report_lines(out: Seq<Seq<char>>, r: AnalyzeSuggestReport, profile_path: Seq<char>, texts: Seq<ColumnTexts>) -> Seq<Seq<char>> {
    let out = out.push("# Analyze Suggest Report"@);
    let out = out.push(""@);
    let out = out.push("- Input: "@ + r.input@);
    let out = out.push("- Sampled rows: "@ + digits::decimal(r.sampled_rows as nat));
    let out = out.push("- Sample mode: "@ + sample_mode_text(r.sample_mode) + " (seed="@ + digits::decimal(r.sample_seed as nat) + ")"@);
    let out = out.push("- Suggested profile name: `"@ + r.profile_name@ + "`"@);
    let out = out.push("- Suggested profile path: "@ + profile_path);
    let out = out.push(""@);
    let out = out.push("## Suggested Columns"@);
    let out = out.push(""@);
    let out = if r.suggested_group_by@.len() == 0 {
        let out = out.push("- group_by: (none)"@);
        out
    } else {
        let out = out.push("- group_by: "@ + scan::join(text::views(r.suggested_group_by@), ", "@));
        out
    };
    let out = if r.suggested_metrics@.len() == 0 {
        let out = out.push("- metrics: (none)"@);
        out
    } else {
        let out = out.push("- metrics: "@ + scan::join(text::views(r.suggested_metrics@), ", "@));
        out
    };
    let out = match r.suggested_rank_by {
        Some(s) => {
            let out = out.push("- rank_by: "@ + s@);
            out
        },
        None => {
            let out = out.push("- rank_by: (none)"@);
            out
        },
    };
    let out = match r.suggested_date_column {
        Some(s) => {
            let out = out.push("- date_column: "@ + s@);
            out
        },
        None => {
            let out = out.push("- date_column: (none)"@);
            out
        },
    };
    let out = out.push(""@);
    let out = if r.warnings@.len() > 0 {
        let out = out.push("## Warnings"@);
        let out = out.push(""@);
        let out = write_warnings_lines(out, r.warnings@, r.warnings@.len() as int);
        let out = out.push(""@);
        out
    } else {
        out
    };
    let out = out.push("## Column Profile"@);
    let out = out.push(""@);
    let out = out.push("| Column | Role | Fill % | Distinct | Numeric Ratio | Date Ratio | Top Values |"@);
    let out = out.push("|---|---|---:|---:|---:|---:|---|"@);
    let out = write_columns_lines(out, r.columns@, texts, r.columns@.len() as int);
    out
}

/// All sections of the suggestions.
pub fn write_suggest_report(out: &mut Vec<String>, r: &AnalyzeSuggestReport, profile_path: &str, texts: &Vec<ColumnTexts>)
    requires
        texts.len() == r.columns.len(),
    ensures
        text::views(final(out)@) == write_suggest_report_lines(text::views(old(out)@), *r, profile_path@, texts@),
{
    say(out, "# Analyze Suggest Report".to_owned());
    say(out, "".to_owned());
    say(out, cat2("- Input: ", r.input.as_str()));
    say(out, cat2("- Sampled rows: ", count_text(r.sampled_rows).as_str()));
    say(out, cat5("- Sample mode: ", sample_mode_label(r.sample_mode), " (seed=", decimal_text(r.sample_seed).as_str(), ")"));
    say(out, cat3("- Suggested profile name: `", r.profile_name.as_str(), "`"));
    say(out, cat2("- Suggested profile path: ", profile_path));
    say(out, "".to_owned());
    say(out, "## Suggested Columns".to_owned());
    say(out, "".to_owned());
    if r.suggested_group_by.len() == 0 {
        say(out, "- group_by: (none)".to_owned());
    } else {
        say(out, cat2("- group_by: ", join_text(&r.suggested_group_by, ", ").as_str()));
    }
    if r.suggested_metrics.len() == 0 {
        say(out, "- metrics: (none)".to_owned());
    } else {
        say(out, cat2("- metrics: ", join_text(&r.suggested_metrics, ", ").as_str()));
    }
    match &r.suggested_rank_by {
        Some(s) => {
            say(out, cat2("- rank_by: ", s.as_str()));
        },
        None => {
            say(out, "- rank_by: (none)".to_owned());
        },
    }
    match &r.suggested_date_column {
        Some(s) => {
            say(out, cat2("- date_column: ", s.as_str()));
        },
        None => {
            say(out, "- date_column: (none)".to_owned());
        },
    }
    say(out, "".to_owned());
    if r.warnings.len() > 0 {
        say(out, "## Warnings".to_owned());
        say(out, "".to_owned());
        write_warnings(out, &r.warnings);
        say(out, "".to_owned());
    }
    say(out, "## Column Profile".to_owned());
    say(out, "".to_owned());
    say(out, "| Column | Role | Fill % | Distinct | Numeric Ratio | Date Ratio | Top Values |".to_owned());
    say(out, "|---|---|---:|---:|---:|---:|---|".to_owned());
    write_columns(out, &r.columns, texts);
}

/// The lines of a suggested profile.
pub open spec fn write_profile_toml_lines(out: Seq<Seq<char>>, r: AnalyzeSuggestReport, profile_name: Seq<char>, auto_group_k: usize, metrics: Seq<String>) -> Seq<Seq<char>> {
    let out = out.push("[profiles."@ + profile_name + "]"@);
    let out = if r.suggested_group_by@.len() > 0 {
        let out = out.push("group_by = ["@ + scan::join(quoted(text::views(r.suggested_group_by@)), ", "@) + "]"@);
        out
    } else {
        out
    };
    let out = if r.suggested_metrics@.len() > 0 {
        let out = out.push("metrics = ["@ + scan::join(quoted(text::views(metrics)), ", "@) + "]"@);
        out
    } else {
        out
    };
    let out = match r.suggested_rank_by {
        Some(s) => {
            let out = out.push("rank_by = \""@ + s@ + "\""@);
            out
        },
        None => out,
    };
    let out = out.push("top = 15"@);
    let out = out.push("min_records = 10"@);
    let out = out.push("auto_group_k = "@ + digits::decimal(auto_group_k as nat));
    out
}

/// The lines of a suggested profile.
pub fn write_profile_toml(out: &mut Vec<String>, r: &AnalyzeSuggestReport, profile_name: &str, auto_group_k: usize, metrics: &Vec<String>)
    ensures
        text::views(final(out)@) == write_profile_toml_lines(text::views(old(out)@), *r, profile_name@, auto_group_k, metrics@),
{
    say(out, cat3("[profiles.", profile_name, "]"));
    if r.suggested_group_by.len() > 0 {
        say(out, cat3("group_by = [", join_text(&quote_all(&r.suggested_group_by), ", ").as_str(), "]"));
    }
    if r.suggested_metrics.len() > 0 {
        say(out, cat3("metrics = [", join_text(&quote_all(metrics), ", ").as_str(), "]"));
    }
    match &r.suggested_rank_by {
        Some(s) => {
            say(out, cat3("rank_by = \"", s.as_str(), "\""));
        },
        None => {},
    }
    say(out, "top = 15".to_owned());
    say(out, "min_records = 10".to_owned());
    say(out, cat2("auto_group_k = ", count_text(auto_group_k).as_str()));
}

/// The suggestions as a page.
pub fn suggest_report_markdown(
    report: &AnalyzeSuggestReport,
    profile_path: &str,
    texts: &Vec<ColumnTexts>,
) -> (r: String)
    requires
        texts.len() == report.columns.len(),
    ensures
        r@ == report::page(
            write_suggest_report_lines(Seq::empty(), *report, profile_path@, texts@),
        ),
{
    let mut out: Vec<String> = Vec::new();
    assert(text::views(out@) =~= Seq::empty());
    write_suggest_report(&mut out, report, profile_path, texts);
    write_page(&out)
}

/// The first `n` texts.
fn first_texts(names: &Vec<String>, n: usize) -> (r: Vec<String>)
    ensures
        r@ == crate::answers::at_most(names@, n as int),
{
    let mut out: Vec<String> = Vec::new();
    let mut i: usize = 0;
    while i < names.len() && i < n
        invariant
            i <= names.len(),
            i <= n,
            out@ == names@.take(i as int),
        decreases names.len() - i,
    {
        out.push(names[i].clone());
        assert(out@ =~= names@.take(i + 1));
        i += 1;
    }
    assert(out@ =~= crate::answers::at_most(names@, n as int));
    out
}

/// A suggested profile in TOML.
pub fn build_suggested_profile_toml(
    report: &AnalyzeSuggestReport,
    profile_name: &str,
    auto_group_k: usize,
    max_metrics: usize,
) -> (r: String)
    ensures
        r@ == profile_toml(*report, profile_name@, auto_group_k, max_metrics),
{
    let metrics = first_texts(&report.suggested_metrics, max_metrics);
    let mut out: Vec<String> = Vec::new();
    assert(text::views(out@) =~= Seq::empty());
    write_profile_toml(&mut out, report, profile_name, auto_group_k, &metrics);
    write_page(&out)
}

/// A suggested profile in TOML.
pub open spec fn profile_toml(
    report: AnalyzeSuggestReport,
    profile_name: Seq<char>,
    auto_group_k: usize,
    max_metrics: usize,
) -> Seq<char> {
    report::page(
        write_profile_toml_lines(
            Seq::empty(),
            report,
            profile_name,
            auto_group_k,
            crate::answers::at_most(report.suggested_metrics@, max_metrics as int),
        ),
    )
}

/// Texts as JSON string literals.
pub open spec fn json_literals(names: Seq<String>) -> Seq<Seq<char>> {
    Seq::new(names.len(), |i: int| json::json_quoted(names[i]@))
}

fn write_json_list(names: &Vec<String>) -> (r: String)
    ensures
        r@ == "["@ + scan::join(json_literals(names@), ","@) + "]"@,
{
    let mut parts: Vec<String> = Vec::new();
    let mut i: usize = 0;
    while i < names.len()
        invariant
            i <= names.len(),
            parts.len() == i,
            forall|k: int| 0 <= k < i ==> (#[trigger] parts@[k])@ == json::json_quoted(names@[k]@),
        decreases names.len() - i,
    {
        parts.push(quote_json(names[i].as_str()));
        i += 1;
    }
    assert(text::views(parts@) =~= json_literals(names@));
    cat3("[", join_text(&parts, ",").as_str(), "]")
}

/// A suggested profile in JSON, its members in the order of their names.
pub open spec fn profile_json(
    report: AnalyzeSuggestReport,
    profile_name: Seq<char>,
    auto_group_k: usize,
    max_metrics: usize,
) -> Seq<char> {
    let metrics = crate::answers::at_most(report.suggested_metrics@, max_metrics as int);
    let rank = match report.suggested_rank_by {
        Some(s) => json::json_quoted(s@),
        None => "null"@,
    };
    "{\"profiles\":{"@ + json::json_quoted(profile_name) + ":{\"auto_group_k\":"@
        + digits::decimal(auto_group_k as nat) + ",\"group_by\":"@ + ("["@ + scan::join(
        json_literals(report.suggested_group_by@),
        ","@,
    ) + "]"@) + ",\"metrics\":"@ + ("["@ + scan::join(json_literals(metrics), ","@) + "]"@)
        + ",\"min_records\":10,\"rank_by\":"@ + rank + ",\"top\":15}}}"@
}

/// A suggested profile in JSON.
pub fn build_suggested_profile_json(
    report: &AnalyzeSuggestReport,
    profile_name: &str,
    auto_group_k: usize,
    max_metrics: usize,
) -> (r: String)
    ensures
        r@ == profile_json(*report, profile_name@, auto_group_k, max_metrics),
{
    let metrics = first_texts(&report.suggested_metrics, max_metrics);
    let rank = match &report.suggested_rank_by {
        Some(s) => quote_json(s.as_str()),
        None => "null".to_owned(),
    };
    let mut out = cat5(
        "{\"profiles\":{",
        quote_json(profile_name).as_str(),
        ":{\"auto_group_k\":",
        count_text(auto_group_k).as_str(),
        ",\"group_by\":",
    );
    out.append(write_json_list(&report.suggested_group_by).as_str());
    out.append(",\"metrics\":");
    out.append(write_json_list(&metrics).as_str());
    out.append(",\"min_records\":10,\"rank_by\":");
    out.append(rank.as_str());
    out.append(",\"top\":15}}}");
    out
}

/// A suggested profile in the format asked for.
pub fn build_suggested_profile_config(
    report: &AnalyzeSuggestReport,
    profile_name: &str,
    auto_group_k: usize,
    max_metrics: usize,
    format: SuggestProfileFormat,
) -> (r: String)
    ensures
        r@ == (match format {
            SuggestProfileFormat::Toml => profile_toml(
                *report,
                profile_name@,
                auto_group_k,
                max_metrics,
            ),
            SuggestProfileFormat::Json => profile_json(
                *report,
                profile_name@,
                auto_group_k,
                max_metrics,
            ),
        }),
{
    match format {
        SuggestProfileFormat::Toml => build_suggested_profile_toml(
            report,
            profile_name,
            auto_group_k,
            max_metrics,
        ),
        SuggestProfileFormat::Json => build_suggested_profile_json(
            report,
            profile_name,
            auto_group_k,
            max_metrics,
        ),
    }
}

// ---------------------------------------------------------------------------
// Laws
// ---------------------------------------------------------------------------

proof fn lemma_reservoir_holds_rows_once(seed: u64, size: int, n: int)
    requires
        0 <= n <= usize::MAX,
        0 <= size,
    ensures
        ({
            let held = reservoir(seed, size, n).0;
            &&& n <= size ==> held == Seq::new(n as nat, |i: int| i as usize)
            &&& forall|i: int| 0 <= i < held.len() ==> #[trigger] held[i] < n
            &&& forall|i: int, j: int|
                0 <= i < j < held.len() ==> #[trigger] held[i] != #[trigger] held[j]
        }),
    decreases n,
{
    if n > 0 {
        lemma_reservoir_holds_rows_once(seed, size, n - 1);
        let front = reservoir(seed, size, n - 1).0;
        let held = reservoir(seed, size, n).0;
        if n <= size {
            assert(held =~= Seq::new(n as nat, |i: int| i as usize));
        }
        assert forall|i: int, j: int| 0 <= i < j < held.len() implies #[trigger] held[i]
            != #[trigger] held[j] by {
            if held[i] != n - 1 {
                assert(held[i] == front[i]);
            }
            if held[j] != n - 1 {
                assert(held[j] == front[j]);
            }
            if held[i] == held[j] && held[i] == n - 1 {
                if i < front.len() {
                    assert(front[i] < n - 1);
                }
                if j < front.len() {
                    assert(front[j] < n - 1);
                }
            }
        }
        assert forall|i: int| 0 <= i < held.len() implies #[trigger] held[i] < n by {
            if i < front.len() {
                assert(front[i] < n - 1);
            }
        }
    }
}

/// A sample holds no row twice. The head of a table is its first rows in order,
/// and a sample that is not smaller than the table is the whole table in order,
/// whichever way it is drawn.
pub proof fn law_samples_hold_rows_once(total: int, mode: SampleMode, size: int, seed: u64)
    requires
        0 <= total <= usize::MAX,
        0 <= size <= usize::MAX,
    ensures
        ({
            let picked = sample(total, mode, size, seed);
            &&& forall|i: int, j: int|
                0 <= i < j < picked.len() ==> #[trigger] picked[i] != #[trigger] picked[j]
            &&& mode == SampleMode::Head || total <= size ==> forall|i: int|
                0 <= i < picked.len() ==> #[trigger] picked[i] == i
        }),
{
    lemma_reservoir_holds_rows_once(seed, size, total);
}

/// The role of a column follows from its counts and its name: dates in nine of
/// ten filled cells make a date; numbers in seventeen of twenty make a metric,
/// unless the name is that of an identifier or the few numbers are classes; and
/// a column of a few words, filled in one row of five, is a dimension.
pub proof fn law_roles_follow_the_counts(n: Seq<char>, c: ColumnCounts)
    ensures
        ({
            let dates = c.filled > 0 && c.filled * 9 <= c.dates * 10;
            let numbers = c.filled > 0 && c.filled * 17 <= c.numeric * 20;
            let dated_name = n == "date"@ || scan::ends_with(n, "_date"@) || scan::contains(
                n,
                "timestamp"@,
            );
            let classes = numbers && c.sampled <= c.filled * 5 && c.distinct <= 20
                && is_class_like(n);
            &&& role_of(n, c) == ColumnRole::Date <==> dates || dated_name
            &&& role_of(n, c) == ColumnRole::Metric <==> !dates && !dated_name && numbers
                && !classes && !is_id_like(n)
            &&& role_of(n, c) == ColumnRole::Dimension <==> !dates && !dated_name && (classes || (
            !numbers && !is_id_like(n) && c.sampled <= c.filled * 5 && 2 <= c.distinct
                && c.distinct <= 80))
            &&& role_of(n, c) == ColumnRole::NumericOther <==> !dates && !dated_name && numbers
                && !classes && is_id_like(n)
        }),
{
}

/// A place is of a column with that role.
pub open spec fn is_of_role(columns: Seq<SuggestColumn>, c: Candidate, role: ColumnRole) -> bool {
    c.place < columns.len() && columns[c.place as int].role == role && c.filled
        == columns[c.place as int].counts.filled
}

proof fn lemma_candidates(columns: Seq<SuggestColumn>, role: ColumnRole, n: int)
    requires
        0 <= n <= columns.len() <= usize::MAX,
    ensures
        forall|k: int|
            0 <= k < candidates(columns, role, n).len() ==> ({
                let c = #[trigger] candidates(columns, role, n)[k];
                is_of_role(columns, c, role) && c.place < n && c == candidate_at(
                    columns,
                    role,
                    c.place as int,
                )
            }),
        forall|i: int, j: int|
            0 <= i < j < candidates(columns, role, n).len() ==> (#[trigger] candidates(
                columns,
                role,
                n,
            )[i]).place < (#[trigger] candidates(columns, role, n)[j]).place,
        forall|i: int|
            0 <= i < n && (#[trigger] columns[i]).role == role ==> candidates(
                columns,
                role,
                n,
            ).contains(candidate_at(columns, role, i)),
    decreases n,
{
    if n > 0 {
        lemma_candidates(columns, role, n - 1);
        let front = candidates(columns, role, n - 1);
        let all = candidates(columns, role, n);
        assert forall|k: int| 0 <= k < front.len() implies #[trigger] all[k] == front[k] by {}
        assert forall|i: int| 0 <= i < n && (#[trigger] columns[i]).role
            == role implies all.contains(candidate_at(columns, role, i)) by {
            let x = candidate_at(columns, role, i);
            if i < n - 1 {
                assert(front.contains(x));
                let k = choose|k: int| 0 <= k < front.len() && front[k] == x;
                assert(all[k] == x);
            } else {
                assert(all[all.len() - 1] == x);
            }
        }
    }
}

spec fn candidate_at(columns: Seq<SuggestColumn>, role: ColumnRole, i: int) -> Candidate {
    Candidate {
        place: i as usize,
        filled: columns[i].counts.filled,
        weight: if role == ColumnRole::Metric {
            priority_of(text::lower_case(columns[i].name@)) as usize
        } else {
            penalty(columns[i].distinct_count as int) as usize
        },
    }
}

/// How far a column is from the dozen of different words that serves best.
pub open spec fn strays(c: SuggestColumn) -> int {
    if c.distinct_count >= 12 {
        c.distinct_count - 12
    } else {
        12 - c.distinct_count
    }
}

/// Column `a` is a better dimension than column `b`: its number of different
/// words is closer to a dozen, or as close and more of its cells are filled, or
/// neither tells them apart and it stands first.
pub open spec fn leads_as_dimension(columns: Seq<SuggestColumn>, a: int, b: int) -> bool {
    strays(columns[a]) < strays(columns[b]) || (strays(columns[a]) == strays(columns[b]) && (
    columns[a].counts.filled > columns[b].counts.filled || (columns[a].counts.filled
        == columns[b].counts.filled && a < b)))
}

pub open spec fn dimension_lead(columns: Seq<SuggestColumn>) -> spec_fn(int, int) -> bool {
    |a: int, b: int| leads_as_dimension(columns, a, b)
}

/// The suggested groups are the dimensions whose number of different words is
/// closest to a dozen, the closest first; of equally close ones the better
/// filled comes first, and of equally filled ones the one that stands first.
/// Every dimension is suggested, unless enough better ones are.
pub proof fn law_suggested_groups_have_about_a_dozen_words(
    columns: Seq<SuggestColumn>,
    limit: int,
)
    requires
        columns.len() <= usize::MAX,
        0 <= limit,
    ensures
        exists|at: Seq<int>| #[trigger]
            are_leading(
                best_names(
                    columns,
                    order::sorted(
                        candidates(columns, ColumnRole::Dimension, columns.len() as int),
                        dimension_order(),
                    ),
                    limit,
                ),
                columns,
                ColumnRole::Dimension,
                dimension_lead(columns),
                at,
                limit,
            ),
{
    let role = ColumnRole::Dimension;
    let all = candidates(columns, role, columns.len() as int);
    let before = dimension_order();
    let s = order::sorted(all, before);
    let rank = |c: Candidate| -(c.weight * 0x1_0000_0000_0000_0000) + c.filled;
    let place = |c: Candidate| c.place as int;
    lemma_candidates(columns, role, columns.len() as int);
    assert forall|c: Candidate| #[trigger] all.contains(c) implies is_of_role(columns, c, role) && c
        == candidate_at(columns, role, c.place as int) by {
        let k = choose|k: int| 0 <= k < all.len() && all[k] == c;
        assert(is_of_role(columns, all[k], role));
    }
    assert forall|a: Candidate, b: Candidate| all.contains(a) && all.contains(b) implies (
    #[trigger] before(a, b) ==> rank(a) > rank(b)) && (rank(a) > rank(b) ==> before(a, b)) by {}
    order::lemma_sorted_falls(all, before, rank);
    order::lemma_ties_ascend(all, before, rank, place);
    order::lemma_sorted_contains(all, before);
    let leads = dimension_lead(columns);
    assert forall|k: int| 0 <= k < s.len() implies all.contains(#[trigger] s[k]) by {
        assert(s.contains(s[k]));
    }
    assert forall|i: int, j: int| 0 <= i < j < s.len() implies leads(
        (#[trigger] s[i]).place as int,
        (#[trigger] s[j]).place as int,
    ) by {
        assert(all.contains(s[i]) && all.contains(s[j]));
        assert(rank(s[i]) >= rank(s[j]));
    }
    lemma_leading(columns, role, all, s, leads, limit);
}

/// Column `a` is a better metric than column `b`: its name speaks more of what
/// is earned, or as much and more of its cells are filled, or neither tells them
/// apart and it stands first.
pub open spec fn leads_as_metric(columns: Seq<SuggestColumn>, a: int, b: int) -> bool {
    let x = priority_of(text::lower_case(columns[a].name@));
    let y = priority_of(text::lower_case(columns[b].name@));
    x > y || (x == y && (columns[a].counts.filled > columns[b].counts.filled || (
    columns[a].counts.filled == columns[b].counts.filled && a < b)))
}

pub open spec fn metric_lead(columns: Seq<SuggestColumn>) -> spec_fn(int, int) -> bool {
    |a: int, b: int| leads_as_metric(columns, a, b)
}

/// The suggested metrics are those whose names speak most of what is earned, and
/// of equal ones the better filled; every metric is suggested, unless enough
/// better ones are.
pub proof fn law_suggested_metrics_speak_of_earnings(columns: Seq<SuggestColumn>, limit: int)
    requires
        columns.len() <= usize::MAX,
        0 <= limit,
    ensures
        exists|at: Seq<int>| #[trigger]
            are_leading(
                best_names(
                    columns,
                    order::sorted(
                        candidates(columns, ColumnRole::Metric, columns.len() as int),
                        metric_order(),
                    ),
                    limit,
                ),
                columns,
                ColumnRole::Metric,
                metric_lead(columns),
                at,
                limit,
            ),
{
    let role = ColumnRole::Metric;
    let all = candidates(columns, role, columns.len() as int);
    let before = metric_order();
    let s = order::sorted(all, before);
    let rank = |c: Candidate| c.weight * 0x1_0000_0000_0000_0000 + c.filled;
    let place = |c: Candidate| c.place as int;
    lemma_candidates(columns, role, columns.len() as int);
    assert forall|c: Candidate| #[trigger] all.contains(c) implies is_of_role(columns, c, role) && c
        == candidate_at(columns, role, c.place as int) by {
        let k = choose|k: int| 0 <= k < all.len() && all[k] == c;
        assert(is_of_role(columns, all[k], role));
    }
    assert forall|a: Candidate, b: Candidate| all.contains(a) && all.contains(b) implies (
    #[trigger] before(a, b) ==> rank(a) > rank(b)) && (rank(a) > rank(b) ==> before(a, b)) by {}
    order::lemma_sorted_falls(all, before, rank);
    order::lemma_ties_ascend(all, before, rank, place);
    order::lemma_sorted_contains(all, before);
    let leads = metric_lead(columns);
    assert forall|k: int| 0 <= k < s.len() implies all.contains(#[trigger] s[k]) by {
        assert(s.contains(s[k]));
    }
    assert forall|i: int, j: int| 0 <= i < j < s.len() implies leads(
        (#[trigger] s[i]).place as int,
        (#[trigger] s[j]).place as int,
    ) by {
        assert(all.contains(s[i]) && all.contains(s[j]));
        assert(rank(s[i]) >= rank(s[j]));
    }
    lemma_leading(columns, role, all, s, leads, limit);
}

/// The names are those of the columns at these places, which have the role and
/// come in the order given; a column of the role that is left out comes after
/// all of them, and none is left out before enough are taken.
pub open spec fn are_leading(
    names: Seq<Seq<char>>,
    columns: Seq<SuggestColumn>,
    role: ColumnRole,
    leads: spec_fn(int, int) -> bool,
    at: Seq<int>,
    limit: int,
) -> bool {
    &&& at.len() == names.len() && at.len() <= limit
    &&& forall|k: int|
        0 <= k < at.len() ==> 0 <= #[trigger] at[k] < columns.len() && columns[at[k]].role == role
            && columns[at[k]].name@ == names[k]
    &&& forall|i: int, j: int| 0 <= i < j < at.len() ==> leads(#[trigger] at[i], #[trigger] at[j])
    &&& forall|i: int, p: int|
        0 <= i < at.len() && 0 <= p < columns.len() && (#[trigger] columns[p]).role == role
            && !at.contains(p) ==> leads(#[trigger] at[i], p)
    &&& forall|p: int|
        0 <= p < columns.len() && (#[trigger] columns[p]).role == role && at.len() < limit
            ==> at.contains(p)
}

proof fn lemma_leading(
    columns: Seq<SuggestColumn>,
    role: ColumnRole,
    all: Seq<Candidate>,
    s: Seq<Candidate>,
    leads: spec_fn(int, int) -> bool,
    limit: int,
)
    requires
        columns.len() <= usize::MAX,
        0 <= limit,
        all == candidates(columns, role, columns.len() as int),
        forall|c: Candidate| #[trigger] s.contains(c) <==> all.contains(c),
        forall|i: int, j: int|
            0 <= i < j < s.len() ==> leads(
                (#[trigger] s[i]).place as int,
                (#[trigger] s[j]).place as int,
            ),
    ensures
        exists|at: Seq<int>| #[trigger]
            are_leading(best_names(columns, s, limit), columns, role, leads, at, limit),
{
    let names = best_names(columns, s, limit);
    let taken = crate::answers::at_most(s, limit);
    let at = Seq::new(taken.len(), |k: int| taken[k].place as int);
    lemma_candidates(columns, role, columns.len() as int);
    assert forall|k: int| 0 <= k < at.len() implies 0 <= #[trigger] at[k] < columns.len()
        && columns[at[k]].role == role && columns[at[k]].name@ == names[k] by {
        assert(s.contains(s[k]));
        assert(all.contains(s[k]));
        let m = choose|m: int| 0 <= m < all.len() && all[m] == s[k];
        assert(is_of_role(columns, all[m], role));
    }
    assert forall|i: int, j: int| 0 <= i < j < at.len() implies leads(
        #[trigger] at[i],
        #[trigger] at[j],
    ) by {
        assert(leads(s[i].place as int, s[j].place as int));
    }
    assert forall|p: int| 0 <= p < columns.len() && (#[trigger] columns[p]).role
        == role implies exists|m: int| 0 <= m < s.len() && (#[trigger] s[m]).place == p by {
        let c = candidate_at(columns, role, p);
        assert(all.contains(c));
        assert(s.contains(c));
        let m = choose|m: int| 0 <= m < s.len() && s[m] == c;
        assert(s[m].place == p);
    }
    assert forall|i: int, p: int|
        0 <= i < at.len() && 0 <= p < columns.len() && (#[trigger] columns[p]).role == role
            && !at.contains(p) implies leads(#[trigger] at[i], p) by {
        let m = choose|m: int| 0 <= m < s.len() && (#[trigger] s[m]).place == p;
        if m < at.len() {
            assert(at[m] == p);
        }
        assert(leads(s[i].place as int, s[m].place as int));
    }
    assert forall|p: int|
        0 <= p < columns.len() && (#[trigger] columns[p]).role == role && at.len()
            < limit implies at.contains(p) by {
        let m = choose|m: int| 0 <= m < s.len() && (#[trigger] s[m]).place == p;
        assert(at[m] == p);
    }
    assert(are_leading(names, columns, role, leads, at, limit));
}

/// The suggested date column is the best filled one of the date columns, and of
/// equally filled ones the last.
pub proof fn law_the_suggested_date_is_the_fullest(columns: Seq<SuggestColumn>, n: int)
    requires
        0 <= n <= columns.len(),
    ensures
        match fullest_date(columns, n) {
            Some(d) => {
                &&& 0 <= d < n
                &&& columns[d].role == ColumnRole::Date
                &&& forall|i: int|
                    0 <= i < n && (#[trigger] columns[i]).role == ColumnRole::Date
                        ==> columns[i].counts.filled <= columns[d].counts.filled
                &&& forall|i: int|
                    d < i < n && (#[trigger] columns[i]).role == ColumnRole::Date
                        ==> columns[i].counts.filled < columns[d].counts.filled
            },
            None => forall|i: int|
                0 <= i < n ==> (#[trigger] columns[i]).role != ColumnRole::Date,
        },
    decreases n,
{
    if n > 0 {
        law_the_suggested_date_is_the_fullest(columns, n - 1);
    }
}

/// Names that speak of revenue come before those that speak of cost, these
/// before those that speak of a number of things, and these before all others.
pub proof fn law_earnings_come_before_costs_and_counts(a: Seq<char>, b: Seq<char>)
    ensures
        scan::contains(a, "revenue"@) && !scan::contains(b, "revenue"@) && !scan::contains(
            b,
            "gmv"@,
        ) && !scan::contains(b, "sales"@) && !scan::contains(b, "amount"@) ==> priority_of(a)
            > priority_of(b),
        scan::contains(a, "cost"@) && priority_of(b) < 2 ==> priority_of(a) > priority_of(b),
        scan::contains(a, "profit"@) && scan::contains(b, "cost"@) && priority_of(b) < 3
            ==> priority_of(a) >= priority_of(b),
        scan::contains(a, "orders"@) && priority_of(b) < 1 ==> priority_of(a) > priority_of(b),
{
}

/// A cell of a sampled row is looked at exactly where it is filled.
pub proof fn law_filled_cells_of_the_sample_are_looked_at(
    rows: Seq<Vec<String>>,
    picked: Seq<usize>,
    idx: int,
    n: int,
)
    requires
        0 <= n <= picked.len(),
    ensures
        forall|c: Seq<char>| #[trigger]
            sampled_cells(rows, picked, idx, n).contains(c) ==> c.len() > 0 && exists|i: int|
                0 <= i < n && groups::cell(rows[#[trigger] picked[i] as int]@, idx) == c,
        forall|i: int|
            0 <= i < n && groups::cell(rows[#[trigger] picked[i] as int]@, idx).len() > 0
                ==> sampled_cells(rows, picked, idx, n).contains(
                groups::cell(rows[picked[i] as int]@, idx),
            ),
    decreases n,
{
    if n > 0 {
        law_filled_cells_of_the_sample_are_looked_at(rows, picked, idx, n - 1);
        let front = sampled_cells(rows, picked, idx, n - 1);
        let all = sampled_cells(rows, picked, idx, n);
        assert forall|c: Seq<char>| #[trigger] all.contains(c) implies c.len() > 0 && exists|i: int|
            0 <= i < n && groups::cell(rows[#[trigger] picked[i] as int]@, idx) == c by {
            let k = choose|k: int| 0 <= k < all.len() && all[k] == c;
            if k < front.len() {
                assert(front[k] == c);
                assert(front.contains(c));
                let i = choose|i: int|
                    0 <= i < n - 1 && groups::cell(rows[#[trigger] picked[i] as int]@, idx) == c;
                assert(groups::cell(rows[picked[i] as int]@, idx) == c);
            } else {
                assert(groups::cell(rows[picked[n - 1] as int]@, idx) == c);
            }
        }
        assert forall|i: int|
            0 <= i < n && groups::cell(
                rows[#[trigger] picked[i] as int]@,
                idx,
            ).len() > 0 implies all.contains(groups::cell(rows[picked[i] as int]@, idx)) by {
            let c = groups::cell(rows[picked[i] as int]@, idx);
            if i < n - 1 {
                assert(front.contains(c));
                let k = choose|k: int| 0 <= k < front.len() && front[k] == c;
                assert(all[k] == c);
            } else {
                assert(all[all.len() - 1] == c);
            }
        }
    }
}

} // verus!
