//! The columns of two tables along which an investigation can descend.

use vstd::prelude::*;

use crate::list;
use crate::num::Num;
use crate::order;
use crate::report;
use crate::segments;
use crate::segments::{gather, rank_by_count, top_five_records, Ranked, Segment};
use crate::suggest;
use crate::table;
use crate::table::{
    column_cells, count_days, count_numeric, header_index_case_insensitive,
    looks_like_identifier_column,
};
use crate::text;
use crate::text::eq_ignore_case;

verus! {

/// What was counted in a column of both tables: the filled cells, those with
/// numbers and with dates, the different ones, of which no more than 256 are
/// counted, and how often the most frequent one and the five most frequent
/// ones stand there.
#[derive(Clone, Copy, Debug)]
pub struct DimensionFacts {
    pub filled: usize,
    pub numeric: usize,
    pub dates: usize,
    pub distinct: usize,
    pub top1: u64,
    pub top5: u128,
}

/// Segments as entries of a ranking.
pub open spec fn ranked_segments(segs: Seq<Segment>) -> Seq<Ranked> {
    Seq::new(
        segs.len(),
        |i: int|
            Ranked {
                segment: i as usize,
                count: segs[i].rows@.len() as u64,
                value: Num::zero_spec(),
            },
    )
}

/// The most frequent cells first.
pub open spec fn by_frequency(segs: Seq<Segment>) -> Seq<Ranked> {
    order::sorted(ranked_segments(segs), |a: Ranked, b: Ranked| segments::larger(a, b))
}

/// The frequencies of the first and of the first five ranked cells.
pub open spec fn has_spread(top1: u64, top5: u128, ranked: Seq<Ranked>) -> bool {
    &&& top1 == (if ranked.len() > 0 {
        ranked[0].count
    } else {
        0
    })
    &&& top5 == segments::records_of(
        ranked,
        if ranked.len() < 5 {
            ranked.len() as int
        } else {
            5
        },
    )
}

/// The frequencies are those of the cells.
pub open spec fn is_spread(top1: u64, top5: u128, cells: Seq<Seq<char>>) -> bool {
    exists|segs: Seq<Segment>|
        segments::gathers(segs, cells, cells.len() as int) && has_spread(
            top1,
            top5,
            #[trigger] by_frequency(segs),
        )
}

fn measure_spread(cells: &Vec<String>) -> (r: (u64, u128))
    ensures
        is_spread(r.0, r.1, text::views(cells@)),
{
    let segs = gather(cells);
    let mut items: Vec<Ranked> = Vec::new();
    let mut i: usize = 0;
    while i < segs.len()
        invariant
            i <= segs.len(),
            items.len() == i,
            forall|k: int| 0 <= k < i ==> #[trigger] items@[k] == ranked_segments(segs@)[k],
        decreases segs.len() - i,
    {
        items.push(
            Ranked { segment: i, count: segs[i].rows.len() as u64, value: Num::zero() },
        );
        i += 1;
    }
    assert(items@ =~= ranked_segments(segs@));
    let ranked = rank_by_count(items);
    let top1: u64 = if ranked.len() > 0 {
        ranked[0].count
    } else {
        0
    };
    let top5: u128 = top_five_records(&ranked);
    assert(ranked@ == by_frequency(segs@));
    (top1, top5)
}

/// The facts are those of the cells.
pub open spec fn are_facts(f: DimensionFacts, cells: Seq<Seq<char>>) -> bool {
    &&& f.filled == cells.len()
    &&& f.numeric == table::numeric_cells(cells).len()
    &&& f.dates == table::day_cells(cells).len()
    &&& f.distinct == report::least(
        list::distinct_by(cells, |k: Seq<char>| k).len() as int,
        256,
    )
    &&& is_spread(f.top1, f.top5, cells)
}

/// Counts what a column shows. There is no answer where a cell that looks like
/// a date has a multi-byte character across its tenth byte.
pub fn column_facts(cells: &Vec<String>) -> (r: Option<DimensionFacts>)
    ensures
        match r {
            Some(f) => are_facts(f, text::views(cells@)) && !suggest::cells_blocked(
                text::views(cells@),
            ),
            None => suggest::cells_blocked(text::views(cells@)),
        },
{
    let dates: usize = match count_days(cells) {
        Some(n) => n,
        None => {
            return None;
        },
    };
    let numeric: usize = count_numeric(cells);
    let distinct: usize = report::lesser(segments::count_distinct(cells), 256);
    let (top1, top5) = measure_spread(cells);
    assert(text::views(cells@).len() == cells@.len());
    Some(DimensionFacts { filled: cells.len(), numeric, dates, distinct, top1, top5 })
}

proof fn lemma_facts_unique(f: DimensionFacts, g: DimensionFacts, cells: Seq<Seq<char>>)
    requires
        are_facts(f, cells),
        are_facts(g, cells),
    ensures
        f == g,
{
    let n = cells.len() as int;
    let (a, b) = choose|a: Seq<Segment>, b: Seq<Segment>|
        #![trigger by_frequency(a), by_frequency(b)]
        segments::gathers(a, cells, n) && segments::gathers(b, cells, n) && has_spread(
            f.top1,
            f.top5,
            by_frequency(a),
        ) && has_spread(g.top1, g.top5, by_frequency(b));
    segments::lemma_gathers_unique(a, b, cells, n);
    assert(ranked_segments(a) =~= ranked_segments(b)) by {
        assert forall|i: int| 0 <= i < a.len() implies ranked_segments(a)[i]
            == ranked_segments(b)[i] by {
            assert(a[i].rows@ == b[i].rows@);
        }
    }
}

/// The bit pattern of 0.12.
pub const STRONG_SHARE: u64 = 0x3fbe_b851_eb85_1eb8;

/// The bit pattern of 0.4.
pub const STRONG_SHARE_OF_FIVE: u64 = 0x3fd9_9999_9999_999a;

/// A few codes: at most 20 different cells, and at most a fifth of all.
pub open spec fn has_few_codes(f: DimensionFacts) -> bool {
    0 < f.distinct <= 20 && 5 * f.distinct <= f.filled
}

/// Texts with so many different values that they serve as keys.
pub open spec fn has_many_texts(f: DimensionFacts) -> bool {
    10 * f.numeric < 9 * f.filled && f.distinct >= 64 && 20 * f.distinct >= 7 * f.filled
}

/// Few of many values cover much of the rows or of the metric.
pub open spec fn is_concentrated(f: DimensionFacts, metric_top1: Num, metric_top5: Num) -> bool {
    25 * f.top1 >= 3 * f.filled || 20 * f.top5 >= 7 * f.filled || (Num { bits: STRONG_SHARE }).le(
        metric_top1,
    ) || (Num { bits: STRONG_SHARE_OF_FIVE }).le(metric_top5)
}

/// A column that an investigation can descend along: filled, not mostly dates,
/// not mostly numbers unless these are a few codes, and not of many texts
/// unless a few of them cover much.
pub open spec fn is_dimension(f: DimensionFacts, metric_top1: Num, metric_top5: Num) -> bool {
    &&& f.filled > 0
    &&& 5 * f.dates < 4 * f.filled
    &&& !(10 * f.numeric >= 9 * f.filled && !has_few_codes(f))
    &&& !(has_many_texts(f) && !is_concentrated(f, metric_top1, metric_top5))
}

/// Whether an investigation can descend along a column. The shares are those
/// of the strongest value and of the five strongest in the metric.
pub fn serves_as_dimension(f: DimensionFacts, metric_top1: Num, metric_top5: Num) -> (r: bool)
    ensures
        r == is_dimension(f, metric_top1, metric_top5),
{
    let filled: u128 = f.filled as u128;
    let numeric: u128 = f.numeric as u128;
    let dates: u128 = f.dates as u128;
    let distinct: u128 = f.distinct as u128;
    let top1: u128 = f.top1 as u128;
    if filled == 0 || 5 * dates >= 4 * filled {
        return false;
    }
    let few: bool = 0 < distinct && distinct <= 20 && 5 * distinct <= filled;
    if 10 * numeric >= 9 * filled && !few {
        return false;
    }
    let many: bool = 10 * numeric < 9 * filled && distinct >= 64 && 20 * distinct >= 7 * filled;
    let concentrated: bool = 25 * top1 >= 3 * filled || f.top5 >= (7 * filled + 19) / 20 || (Num {
        bits: STRONG_SHARE,
    }).at_most(metric_top1) || (Num { bits: STRONG_SHARE_OF_FIVE }).at_most(metric_top5);
    !(many && !concentrated)
}

/// The rows of either table that are looked at.
pub const SAMPLED_ROWS: usize = 300;

/// A column's place in a table, by its name whatever the case.
pub open spec fn place_of(headers: Seq<Seq<char>>, name: Seq<char>) -> Option<int> {
    list::first_from(headers, table::resembles(name), 0)
}

/// The cells of a column in the first rows of both tables, where it is
/// considered at all: it is not the metric, holds no identifiers, and is in
/// both tables.
pub open spec fn shared_cells(
    base_headers: Seq<Seq<char>>,
    base_rows: Seq<Vec<String>>,
    new_headers: Seq<Seq<char>>,
    new_rows: Seq<Vec<String>>,
    metric: Option<Seq<char>>,
    name: Seq<char>,
) -> Option<Seq<Seq<char>>> {
    if metric is Some && text::same_ignoring_case(name, metric->0) {
        None
    } else if table::is_identifier_name(name) {
        None
    } else {
        match (place_of(base_headers, name), place_of(new_headers, name)) {
            (Some(b), Some(n)) => Some(
                table::filled_cells(
                    base_rows,
                    b,
                    table::sample_size(base_rows, SAMPLED_ROWS),
                ) + table::filled_cells(
                    new_rows,
                    n,
                    table::sample_size(new_rows, SAMPLED_ROWS),
                ),
            ),
            _ => None,
        }
    }
}

/// The cells of a column in both tables, where it is considered at all.
pub fn collect_shared_cells(
    base_headers: &[String],
    base_rows: &Vec<Vec<String>>,
    new_headers: &[String],
    new_rows: &Vec<Vec<String>>,
    metric: &Option<String>,
    name: &str,
) -> (r: Option<Vec<String>>)
    ensures
        match r {
            Some(v) => shared_cells(
                text::views(base_headers@),
                base_rows@,
                text::views(new_headers@),
                new_rows@,
                crate::planner::optional_text(*metric),
                name@,
            ) == Some(text::views(v@)),
            None => shared_cells(
                text::views(base_headers@),
                base_rows@,
                text::views(new_headers@),
                new_rows@,
                crate::planner::optional_text(*metric),
                name@,
            ) is None,
        },
{
    match metric {
        Some(m) => {
            if eq_ignore_case(name, m.as_str()) {
                return None;
            }
        },
        None => {},
    }
    if looks_like_identifier_column(name) {
        return None;
    }
    let b: usize = match header_index_case_insensitive(base_headers, name) {
        Some(i) => i,
        None => {
            return None;
        },
    };
    let n: usize = match header_index_case_insensitive(new_headers, name) {
        Some(i) => i,
        None => {
            return None;
        },
    };
    let mut cells = column_cells(base_rows, b, SAMPLED_ROWS);
    let mut more = column_cells(new_rows, n, SAMPLED_ROWS);
    let ghost x = text::views(cells@);
    let ghost y = text::views(more@);
    cells.append(&mut more);
    assert(text::views(cells@) =~= x + y);
    Some(cells)
}

/// The shares of a column's strongest value and of its five strongest in the
/// metric.
#[derive(Clone, Copy, Debug)]
pub struct MetricShares {
    pub top1: Num,
    pub top5: Num,
}

/// Two tables and the metric that is compared between them.
pub struct TablePair {
    pub base_headers: Seq<Seq<char>>,
    pub base_rows: Seq<Vec<String>>,
    pub new_headers: Seq<Seq<char>>,
    pub new_rows: Seq<Vec<String>>,
    pub metric: Option<Seq<char>>,
}

impl TablePair {
    /// The cells of a column of both tables, where it is considered at all.
    pub open spec fn cells(self, name: Seq<char>) -> Option<Seq<Seq<char>>> {
        shared_cells(
            self.base_headers,
            self.base_rows,
            self.new_headers,
            self.new_rows,
            self.metric,
            name,
        )
    }
}

/// An investigation can descend along a column with these cells.
pub open spec fn can_descend(cells: Seq<Seq<char>>, shares: MetricShares) -> bool {
    exists|f: DimensionFacts| #[trigger]
        are_facts(f, cells) && is_dimension(f, shares.top1, shares.top5)
}

/// The names of the first `n` columns along which an investigation can
/// descend. `shares` holds the shares of each column of the base table.
pub open spec fn found_dimensions(t: TablePair, shares: Seq<MetricShares>, n: int) -> Seq<Seq<char>>
    decreases n,
{
    if n <= 0 {
        Seq::empty()
    } else {
        let front = found_dimensions(t, shares, n - 1);
        match t.cells(t.base_headers[n - 1]) {
            Some(cells) => if can_descend(cells, shares[n - 1]) {
                front.push(t.base_headers[n - 1])
            } else {
                front
            },
            None => front,
        }
    }
}

/// The date of a considered cell of column `i` cannot be told.
pub open spec fn is_blocked(t: TablePair, i: int) -> bool {
    match t.cells(t.base_headers[i]) {
        Some(cells) => suggest::cells_blocked(cells),
        None => false,
    }
}

/// The columns of two tables along which an investigation can descend. `shares`
/// holds the shares of each column of the base table in the metric. There is
/// no answer where the date of a considered cell cannot be told.
pub fn infer_csv_investigation_dimensions(
    base_headers: &[String],
    base_rows: &Vec<Vec<String>>,
    new_headers: &[String],
    new_rows: &Vec<Vec<String>>,
    metric: &Option<String>,
    shares: &Vec<MetricShares>,
) -> (r: Option<Result<Vec<String>, String>>)
    requires
        shares.len() == base_headers.len(),
    ensures
        ({
            let t = TablePair {
                base_headers: text::views(base_headers@),
                base_rows: base_rows@,
                new_headers: text::views(new_headers@),
                new_rows: new_rows@,
                metric: crate::planner::optional_text(*metric),
            };
            let n = base_headers@.len() as int;
            let found = found_dimensions(t, shares@, n);
            match r {
                None => exists|i: int| 0 <= i < n && #[trigger] is_blocked(t, i),
                Some(Ok(v)) => (forall|i: int| 0 <= i < n ==> !#[trigger] is_blocked(t, i))
                    && found.len() > 0 && text::views(v@) == found,
                Some(Err(e)) => (forall|i: int| 0 <= i < n ==> !#[trigger] is_blocked(t, i))
                    && found.len() == 0 && e@
                    == "could not auto-detect categorical dimensions from CSVs; pass --dimensions explicitly"@,
            }
        }),
{
    let ghost t = TablePair {
        base_headers: text::views(base_headers@),
        base_rows: base_rows@,
        new_headers: text::views(new_headers@),
        new_rows: new_rows@,
        metric: crate::planner::optional_text(*metric),
    };
    let mut out: Vec<String> = Vec::new();
    let mut i: usize = 0;
    assert(text::views(out@) =~= Seq::empty());
    while i < base_headers.len()
        invariant
            i <= base_headers.len(),
            shares.len() == base_headers.len(),
            t == (TablePair {
                base_headers: text::views(base_headers@),
                base_rows: base_rows@,
                new_headers: text::views(new_headers@),
                new_rows: new_rows@,
                metric: crate::planner::optional_text(*metric),
            }),
            forall|k: int| 0 <= k < i ==> !#[trigger] is_blocked(t, k),
            text::views(out@) == found_dimensions(t, shares@, i as int),
        decreases base_headers.len() - i,
    {
        assert(t.base_headers[i as int] == base_headers@[i as int]@);
        match collect_shared_cells(
            base_headers,
            base_rows,
            new_headers,
            new_rows,
            metric,
            base_headers[i].as_str(),
        ) {
            Some(cells) => {
                let ghost seen = text::views(cells@);
                match column_facts(&cells) {
                    Some(f) => {
                        let serves = serves_as_dimension(f, shares[i].top1, shares[i].top5);
                        proof {
                            if can_descend(seen, shares@[i as int]) {
                                let g = choose|g: DimensionFacts| #[trigger]
                                    are_facts(g, seen) && is_dimension(
                                        g,
                                        shares@[i as int].top1,
                                        shares@[i as int].top5,
                                    );
                                lemma_facts_unique(f, g, seen);
                            }
                        }
                        if serves {
                            report::say(&mut out, base_headers[i].clone());
                        }
                    },
                    None => {
                        assert(is_blocked(t, i as int));
                        return None;
                    },
                }
            },
            None => {},
        }
        i += 1;
    }
    assert(text::views(out@).len() == out@.len());
    if out.len() == 0 {
        return Some(
            Err(
                "could not auto-detect categorical dimensions from CSVs; pass --dimensions explicitly".to_owned(),
            ),
        );
    }
    Some(Ok(out))
}

proof fn lemma_found_dimensions(t: TablePair, shares: Seq<MetricShares>, n: int)
    requires
        0 <= n <= t.base_headers.len(),
    ensures
        forall|k: int|
            0 <= k < found_dimensions(t, shares, n).len() ==> {
                let name = #[trigger] found_dimensions(t, shares, n)[k];
                t.base_headers.contains(name) && t.cells(name) is Some
            },
    decreases n,
{
    if n > 0 {
        lemma_found_dimensions(t, shares, n - 1);
        let front = found_dimensions(t, shares, n - 1);
        let all = found_dimensions(t, shares, n);
        assert forall|k: int| 0 <= k < all.len() implies {
            let name = #[trigger] all[k];
            t.base_headers.contains(name) && t.cells(name) is Some
        } by {
            if k < front.len() {
                assert(all[k] == front[k]);
            }
        }
    }
}

/// A dimension that two tables offer is a column of both. It holds no
/// identifiers and is not the metric.
pub proof fn law_dimensions_are_shared_columns(t: TablePair, shares: Seq<MetricShares>)
    ensures
        forall|k: int|
            0 <= k < found_dimensions(t, shares, t.base_headers.len() as int).len() ==> {
                let name = #[trigger] found_dimensions(t, shares, t.base_headers.len() as int)[k];
                &&& t.base_headers.contains(name)
                &&& place_of(t.new_headers, name) is Some
                &&& !table::is_identifier_name(name)
                &&& t.metric is Some ==> !text::same_ignoring_case(name, t.metric->0)
            },
{
    lemma_found_dimensions(t, shares, t.base_headers.len() as int);
    let all = found_dimensions(t, shares, t.base_headers.len() as int);
    assert forall|k: int| 0 <= k < all.len() implies {
        let name = #[trigger] all[k];
        &&& t.base_headers.contains(name)
        &&& place_of(t.new_headers, name) is Some
        &&& !table::is_identifier_name(name)
        &&& t.metric is Some ==> !text::same_ignoring_case(name, t.metric->0)
    } by {
        assert(t.cells(all[k]) is Some);
    }
}

/// No column of identifiers is ever considered.
pub proof fn law_identifiers_not_considered(
    base_headers: Seq<Seq<char>>,
    base_rows: Seq<Vec<String>>,
    new_headers: Seq<Seq<char>>,
    new_rows: Seq<Vec<String>>,
    metric: Option<Seq<char>>,
    name: Seq<char>,
)
    requires
        table::is_identifier_name(name) || (metric is Some && text::same_ignoring_case(
            name,
            metric->0,
        )),
    ensures
        shared_cells(base_headers, base_rows, new_headers, new_rows, metric, name) is None,
{
}

/// A column serves as a dimension exactly where it has filled cells, dates in
/// fewer than four of five, and either fewer than nine numbers in ten or at most
/// twenty codes with five cells for each; and a column of many texts, with sixty
/// four or more of them and seven for every twenty cells, serves only where a
/// few of them hold much of the records or of the metric.
pub proof fn law_dimensions_divide_the_records(
    f: DimensionFacts,
    metric_top1: Num,
    metric_top5: Num,
)
    ensures
        ({
            let numbers = f.numeric * 10 >= f.filled * 9;
            let codes = 0 < f.distinct <= 20 && f.distinct * 5 <= f.filled;
            let texts = !numbers && f.distinct >= 64 && f.distinct * 20 >= f.filled * 7;
            let records = f.top1 * 25 >= f.filled * 3 || f.top5 * 20 >= f.filled * 7;
            let metric = (Num { bits: STRONG_SHARE }).le(metric_top1) || (Num {
                bits: STRONG_SHARE_OF_FIVE,
            }).le(metric_top5);
            is_dimension(f, metric_top1, metric_top5) <==> f.filled > 0 && f.dates * 5 < f.filled
                * 4 && (numbers ==> codes) && (texts ==> records || metric)
        }),
{
}

/// Every column that both tables have, that is neither an identifier nor the
/// metric and that serves as a dimension is found.
pub proof fn law_serving_columns_are_found(
    t: TablePair,
    shares: Seq<MetricShares>,
    n: int,
    i: int,
)
    requires
        0 <= i < n <= t.base_headers.len(),
        !table::is_identifier_name(t.base_headers[i]),
        t.metric is Some ==> !text::same_ignoring_case(t.base_headers[i], t.metric->0),
        t.cells(t.base_headers[i]) is Some,
        can_descend(t.cells(t.base_headers[i])->0, shares[i]),
    ensures
        found_dimensions(t, shares, n).contains(t.base_headers[i]),
    decreases n,
{
    let all = found_dimensions(t, shares, n);
    if i < n - 1 {
        law_serving_columns_are_found(t, shares, n - 1, i);
        let front = found_dimensions(t, shares, n - 1);
        let k = choose|k: int| 0 <= k < front.len() && front[k] == t.base_headers[i];
        assert(all[k] == t.base_headers[i]);
    } else {
        assert(all[all.len() - 1] == t.base_headers[i]);
    }
}

/// What is looked at of a shared column are the cells of its own column in each
/// table: first those of the one table, then those of the other.
pub proof fn law_shared_cells_come_from_both_tables(t: TablePair, b: int, n: int)
    requires
        0 <= b < t.base_headers.len(),
        0 <= n < t.new_headers.len(),
        forall|i: int|
            0 <= i < t.base_headers.len() && text::same_ignoring_case(
                #[trigger] t.base_headers[i],
                t.base_headers[b],
            ) <==> i == b,
        forall|i: int|
            0 <= i < t.new_headers.len() && text::same_ignoring_case(
                #[trigger] t.new_headers[i],
                t.base_headers[b],
            ) <==> i == n,
        !table::is_identifier_name(t.base_headers[b]),
        t.metric is None,
    ensures
        ({
            let cells = t.cells(t.base_headers[b]);
            let first = table::filled_cells(
                t.base_rows,
                b,
                table::sample_size(t.base_rows, SAMPLED_ROWS),
            );
            let second = table::filled_cells(
                t.new_rows,
                n,
                table::sample_size(t.new_rows, SAMPLED_ROWS),
            );
            &&& cells is Some && cells->0.len() == first.len() + second.len()
            &&& forall|k: int| 0 <= k < first.len() ==> #[trigger] cells->0[k] == first[k]
            &&& forall|k: int|
                0 <= k < second.len() ==> cells->0[first.len() + k] == #[trigger] second[k]
        }),
{
    let like = table::resembles(t.base_headers[b]);
    list::lemma_first_from(t.base_headers, like, 0);
    list::lemma_first_from(t.new_headers, like, 0);
    assert(text::same_ignoring_case(t.base_headers[b], t.base_headers[b]));
    assert(text::same_ignoring_case(t.new_headers[n], t.base_headers[b]));
    assert(like(t.base_headers[b]) && like(t.new_headers[n]));
    match place_of(t.base_headers, t.base_headers[b]) {
        Some(k) => {
            assert(text::same_ignoring_case(t.base_headers[k], t.base_headers[b]));
        },
        None => {},
    }
    match place_of(t.new_headers, t.base_headers[b]) {
        Some(k) => {
            assert(text::same_ignoring_case(t.new_headers[k], t.base_headers[b]));
        },
        None => {},
    }
}

/// The most frequent value occurs at least as often as any other, and the five
/// most frequent ones occur together at least as often as it does.
pub proof fn law_the_spread_tells_the_most_frequent(
    top1: u64,
    top5: u128,
    cells: Seq<Seq<char>>,
    value: Seq<char>,
)
    requires
        is_spread(top1, top5, cells),
        cells.len() <= u64::MAX,
    ensures
        segments::places(cells, value, cells.len() as int).len() <= top1,
        top1 <= top5,
        cells.len() > 0 ==> exists|v: Seq<char>|
            #[trigger] segments::places(cells, v, cells.len() as int).len() == top1,
{
    let segs = choose|segs: Seq<Segment>|
        segments::gathers(segs, cells, cells.len() as int) && has_spread(
            top1,
            top5,
            #[trigger] by_frequency(segs),
        );
    let all = ranked_segments(segs);
    let before = |a: Ranked, b: Ranked| segments::larger(a, b);
    let ranked = by_frequency(segs);
    let rank = |r: Ranked| r.count as int;
    order::lemma_sorted_permutation(all, before);
    order::lemma_sorted_contains(all, before);
    order::lemma_sorted_falls(all, before, rank);
    assert forall|i: int| 0 <= i < segs.len() implies (#[trigger] segs[i]).rows@.len()
        <= cells.len() && all[i].count == segs[i].rows@.len() by {
        segments::lemma_places_few(cells, segs[i].key@, cells.len() as int);
    }
    let found = segments::places(cells, value, cells.len() as int);
    if found.len() > 0 {
        segments::lemma_place_has_key(cells, value, cells.len() as int);
        let k = choose|k: int| 0 <= k < cells.len() && #[trigger] cells[k] == value;
        assert(segments::has_key(segs, cells[k]));
        let i = choose|i: int| 0 <= i < segs.len() && (#[trigger] segs[i]).key@ == value;
        assert(all.contains(all[i]));
        assert(ranked.contains(all[i]));
        let m = choose|m: int| 0 <= m < ranked.len() && ranked[m] == all[i];
        if m > 0 {
            assert(rank(ranked[0]) >= rank(ranked[m]));
        }
    }
    if cells.len() > 0 {
        assert(segments::has_key(segs, cells[0]));
        assert(ranked.contains(ranked[0]));
        assert(all.contains(ranked[0]));
        let i = choose|i: int| 0 <= i < all.len() && all[i] == ranked[0];
        assert(segs[i].rows@.len() == top1);
        assert(segments::places(cells, segs[i].key@, cells.len() as int).len() == top1);
    }
    lemma_records_grow(
        ranked,
        if ranked.len() < 5 {
            ranked.len() as int
        } else {
            5
        },
    );
}

proof fn lemma_records_grow(ranked: Seq<Ranked>, n: int)
    requires
        0 <= n <= ranked.len(),
    ensures
        n > 0 ==> segments::records_of(ranked, n) >= ranked[0].count,
        segments::records_of(ranked, n) >= 0,
    decreases n,
{
    if n > 0 {
        lemma_records_grow(ranked, n - 1);
    }
}

} // verus!
