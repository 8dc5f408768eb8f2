//! Drivers of a metric: how they are named, filtered and chosen.

use vstd::prelude::*;

use crate::args::{AutoDriversMode, DriverPreset, InvestigateArgs};
use crate::drill::among;
use crate::groups;
use crate::groups::cell_of;
use crate::list;
use crate::num::Num;
use crate::numeric;
use crate::numeric::numeric_cell;
use crate::order;
use crate::order::{sort_by, text_before};
use crate::scan;
use crate::scan::{begins, ends, length, mentions, position_of, slice};
use crate::segments::count_distinct;
use crate::table;
use crate::table::{column_cells, column_index, count_numeric, resolve_group_name};
use crate::text;
use crate::text::{cat2, cat3, same, to_lower, to_lower_case, trimmed};

verus! {

/// The rows of a table that are looked at to tell what a column holds.
pub const SAMPLED_ROWS: usize = 5000;

/// How the values of a driver are put together.
#[derive(Clone, Copy, Debug, PartialEq, Eq, Structural)]
pub enum DriverAgg {
    Sum,
    Mean,
    Count,
    CountDistinct,
}

/// A driver: its name, its column, and how its values are put together.
#[derive(Clone, Debug)]
pub struct DriverSpec {
    pub label: String,
    pub col_idx: Option<usize>,
    pub agg: DriverAgg,
}

/// A driver in views.
pub struct DriverView {
    pub label: Seq<char>,
    pub col_idx: Option<int>,
    pub agg: DriverAgg,
}

impl View for DriverSpec {
    type V = DriverView;

    open spec fn view(&self) -> DriverView {
        DriverView {
            label: self.label@,
            col_idx: match self.col_idx {
                Some(i) => Some(i as int),
                None => None,
            },
            agg: self.agg,
        }
    }
}

pub open spec fn driver_views(s: Seq<DriverSpec>) -> Seq<DriverView> {
    Seq::new(s.len(), |i: int| s[i]@)
}

fn copy_spec(d: &DriverSpec) -> (r: DriverSpec)
    ensures
        r@ == d@,
{
    DriverSpec { label: d.label.clone(), col_idx: d.col_idx, agg: d.agg }
}

fn push_spec(out: &mut Vec<DriverSpec>, d: DriverSpec)
    ensures
        driver_views(final(out)@) == driver_views(old(out)@).push(d@),
{
    let ghost before = driver_views(out@);
    out.push(d);
    assert(driver_views(out@) =~= before.push(d@));
}

/// The name of a driver in a report.
pub fn driver_identity_name(name: &str) -> (r: String)
    ensures
        r@ == name@,
{
    name.to_owned()
}

// ---------------------------------------------------------------------------
// Names of columns
// ---------------------------------------------------------------------------

/// One of the words stands in the text.
pub open spec fn mentions_one(s: Seq<char>, words: Seq<&str>) -> bool {
    exists|i: int| 0 <= i < words.len() && scan::contains(s, (#[trigger] words[i])@)
}

/// Whether one of the words stands in the text.
pub fn contains_any(s: &str, needles: &[&str]) -> (r: bool)
    ensures
        r == mentions_one(s@, needles@),
{
    let mut i: usize = 0;
    while i < needles.len()
        invariant
            i <= needles.len(),
            forall|k: int| 0 <= k < i ==> !scan::contains(s@, (#[trigger] needles@[k])@),
        decreases needles.len() - i,
    {
        if mentions(s, needles[i]) {
            return true;
        }
        i += 1;
    }
    false
}

/// A column whose values are averaged, by its name.
pub open spec fn is_mean_name(name: Seq<char>) -> bool {
    let n = text::lower(name);
    scan::starts_with(n, "avg_"@) || mentions_one(
        n,
        seq![
            "rate",
            "ratio",
            "pct",
            "percent",
            "conversion",
            "price",
            "unit_price",
            "arpu",
            "cpc",
            "cpm",
        ],
    )
}

/// How the values of a numeric column are put together.
pub open spec fn column_agg(name: Seq<char>) -> DriverAgg {
    if is_mean_name(name) {
        DriverAgg::Mean
    } else {
        DriverAgg::Sum
    }
}

/// How the values of a numeric column are put together, by its name.
pub fn infer_numeric_driver_agg(col_name: &str) -> (r: DriverAgg)
    ensures
        r == column_agg(col_name@),
{
    let n = to_lower(col_name);
    if begins(n.as_str(), "avg_") || contains_any(
        n.as_str(),
        &[
            "rate",
            "ratio",
            "pct",
            "percent",
            "conversion",
            "price",
            "unit_price",
            "arpu",
            "cpc",
            "cpm",
        ],
    ) {
        DriverAgg::Mean
    } else {
        DriverAgg::Sum
    }
}

/// A column of counts, by its name.
pub open spec fn is_count_name(name: Seq<char>) -> bool {
    let n = text::lower(name);
    scan::starts_with(n, "count_"@) || scan::ends_with(n, "_count"@) || scan::contains(
        n,
        "_count_"@,
    )
}

/// Whether a column holds counts, by its name.
pub fn is_count_like_numeric_column(col_name: &str) -> (r: bool)
    ensures
        r == is_count_name(col_name@),
{
    let n = to_lower(col_name);
    begins(n.as_str(), "count_") || ends(n.as_str(), "_count") || mentions(n.as_str(), "_count_")
}

/// A column of flags, by its name.
pub open spec fn is_indicator_name(name: Seq<char>) -> bool {
    let n = text::lower(name);
    scan::starts_with(n, "is_"@) || scan::starts_with(n, "has_"@) || mentions_one(
        n,
        seq!["flag", "plan", "indicator", "bool", "boolean"],
    )
}

/// Whether a column holds flags, by its name.
pub fn is_indicator_like_numeric_column(col_name: &str) -> (r: bool)
    ensures
        r == is_indicator_name(col_name@),
{
    let n = to_lower(col_name);
    begins(n.as_str(), "is_") || begins(n.as_str(), "has_") || contains_any(
        n.as_str(),
        &["flag", "plan", "indicator", "bool", "boolean"],
    )
}

/// A column of names, addresses or other identities, by its name.
pub open spec fn is_identity_name(name: Seq<char>) -> bool {
    mentions_one(
        text::lower(name),
        seq![
            "email",
            "name",
            "address",
            "phone",
            "url",
            "http",
            "uuid",
            "guid",
            "ip",
            "contact",
        ],
    )
}

/// Whether a column holds names, addresses or other identities, by its name.
pub fn is_text_identity_like_column(col_name: &str) -> (r: bool)
    ensures
        r == is_identity_name(col_name@),
{
    let n = to_lower(col_name);
    contains_any(
        n.as_str(),
        &[
            "email",
            "name",
            "address",
            "phone",
            "url",
            "http",
            "uuid",
            "guid",
            "ip",
            "contact",
        ],
    )
}

// ---------------------------------------------------------------------------
// Written drivers
// ---------------------------------------------------------------------------

/// A function and its argument: a name, and the rest between brackets.
pub open spec fn call_parts(raw: Seq<char>) -> Option<(Seq<char>, Seq<char>)> {
    match scan::find(raw, "("@) {
        None => None,
        Some(open) => if !scan::ends_with(raw, ")"@) || open == 0 {
            None
        } else {
            let name = text::lower(text::trim(raw.take(open)));
            if name.len() == 0 {
                None
            } else {
                Some((name, text::trim(raw.subrange(open + 1, raw.len() - 1))))
            }
        },
    }
}

/// Reads a function and its argument.
pub fn parse_driver_fn(raw: &str) -> (r: Option<(String, String)>)
    ensures
        match r {
            Some(p) => call_parts(raw@) == Some((p.0@, p.1@)),
            None => call_parts(raw@) is None,
        },
{
    proof {
        reveal_strlit("(");
        reveal_strlit(")");
        scan::lemma_find_from(raw@, "("@, 0);
    }
    let open: usize = match position_of(raw, "(") {
        None => {
            return None;
        },
        Some(i) => i,
    };
    if !ends(raw, ")") || open == 0 {
        return None;
    }
    let n: usize = length(raw);
    assert(raw@[open as int] == '(') by {
        assert(raw@.subrange(open as int, open + 1)[0] == raw@[open as int]);
    }
    assert(raw@[n - 1] == ')') by {
        assert(scan::ends_with(raw@, ")"@));
        assert(raw@.skip(n - 1)[0] == raw@[n - 1]);
    }
    let head = slice(raw, 0, open);
    assert(head@ =~= raw@.take(open as int));
    let name = to_lower(trimmed(head.as_str()).as_str());
    if name.as_str().is_empty() {
        return None;
    }
    let arg = trimmed(slice(raw, open + 1, n - 1).as_str());
    Some((name, arg))
}

pub open spec fn agg_named(name: Seq<char>) -> Option<DriverAgg> {
    if name == "sum"@ {
        Some(DriverAgg::Sum)
    } else if name == "avg"@ || name == "mean"@ {
        Some(DriverAgg::Mean)
    } else if name == "count"@ {
        Some(DriverAgg::Count)
    } else if name == "count_distinct"@ || name == "distinct_count"@ || name == "n_distinct"@ {
        Some(DriverAgg::CountDistinct)
    } else {
        None
    }
}

fn find_agg(name: &str) -> (r: Option<DriverAgg>)
    ensures
        r == agg_named(name@),
{
    if same(name, "sum") {
        Some(DriverAgg::Sum)
    } else if same(name, "avg") || same(name, "mean") {
        Some(DriverAgg::Mean)
    } else if same(name, "count") {
        Some(DriverAgg::Count)
    } else if same(name, "count_distinct") || same(name, "distinct_count") || same(
        name,
        "n_distinct",
    ) {
        Some(DriverAgg::CountDistinct)
    } else {
        None
    }
}

/// The name of a driver over a column.
pub open spec fn driver_label(agg: DriverAgg, column: Seq<char>) -> Seq<char> {
    (match agg {
        DriverAgg::Sum => "sum("@,
        DriverAgg::Mean => "avg("@,
        DriverAgg::Count => "count("@,
        DriverAgg::CountDistinct => "count_distinct("@,
    }) + column + ")"@
}

/// The name of a driver over a column.
pub fn write_driver_label(agg: DriverAgg, column: &str) -> (r: String)
    ensures
        r@ == driver_label(agg, column@),
{
    match agg {
        DriverAgg::Sum => cat3("sum(", column, ")"),
        DriverAgg::Mean => cat3("avg(", column, ")"),
        DriverAgg::Count => cat3("count(", column, ")"),
        DriverAgg::CountDistinct => cat3("count_distinct(", column, ")"),
    }
}

/// The index of a column by its exact name.
pub open spec fn index_named(headers: Seq<Seq<char>>, name: Seq<char>) -> int {
    match list::first_from(headers, table::equals(name), 0) {
        Some(i) => i,
        None => -1,
    }
}

/// The driver that a text describes, or why it describes none.
pub open spec fn read_driver(raw: Seq<char>, headers: Seq<Seq<char>>) -> Result<
    DriverView,
    Seq<char>,
> {
    let token = text::trim(raw);
    if token.len() == 0 {
        Err("empty driver token"@)
    } else {
        match call_parts(token) {
            Some(p) => match agg_named(p.0) {
                None => Err(
                    "unsupported driver function '"@ + p.0
                        + "'; use sum, avg/mean, count, count_distinct"@,
                ),
                Some(agg) => if agg == DriverAgg::Count && (p.1 == "*"@ || p.1.len() == 0) {
                    Ok(DriverView { label: "count(*)"@, col_idx: None, agg })
                } else {
                    match table::column_named(headers, p.1) {
                        None => Err(table::no_group_column(p.1)),
                        Some(c) => Ok(
                            DriverView {
                                label: driver_label(agg, c),
                                col_idx: Some(index_named(headers, c)),
                                agg,
                            },
                        ),
                    }
                },
            },
            None => match table::column_named(headers, token) {
                None => Err(table::no_group_column(token)),
                Some(c) => Ok(
                    DriverView {
                        label: c,
                        col_idx: Some(index_named(headers, c)),
                        agg: DriverAgg::Sum,
                    },
                ),
            },
        }
    }
}

fn index_of_column(headers: &[String], name: &str) -> (r: usize)
    requires
        text::views(headers@).contains(name@),
    ensures
        r == index_named(text::views(headers@), name@),
        r < headers.len(),
{
    let ghost hs = text::views(headers@);
    proof {
        list::lemma_first_from(hs, table::equals(name@), 0);
        let j = choose|j: int| 0 <= j < hs.len() && hs[j] == name@;
        assert(table::equals(name@)(hs[j]));
    }
    match column_index(headers, name) {
        Some(i) => i,
        None => 0,
    }
}

/// Reads a driver: a column, or a function of one.
pub fn parse_investigate_driver(raw: &str, headers: &[String]) -> (r: Result<DriverSpec, String>)
    ensures
        match r {
            Ok(d) => read_driver(raw@, text::views(headers@)) == Ok::<DriverView, Seq<char>>(d@),
            Err(e) => read_driver(raw@, text::views(headers@)) == Err::<DriverView, Seq<char>>(
                e@,
            ),
        },
{
    let token = trimmed(raw);
    if token.as_str().is_empty() {
        return Err("empty driver token".to_owned());
    }
    match parse_driver_fn(token.as_str()) {
        Some(p) => {
            let agg = match find_agg(p.0.as_str()) {
                Some(a) => a,
                None => {
                    return Err(
                        cat3(
                            "unsupported driver function '",
                            p.0.as_str(),
                            "'; use sum, avg/mean, count, count_distinct",
                        ),
                    );
                },
            };
            if agg == DriverAgg::Count && (same(p.1.as_str(), "*") || p.1.as_str().is_empty()) {
                return Ok(DriverSpec { label: "count(*)".to_owned(), col_idx: None, agg });
            }
            match resolve_group_name(p.1.as_str(), headers) {
                Ok(c) => {
                    let i: usize = index_of_column(headers, c.as_str());
                    Ok(
                        DriverSpec {
                            label: write_driver_label(agg, c.as_str()),
                            col_idx: Some(i),
                            agg,
                        },
                    )
                },
                Err(e) => Err(e),
            }
        },
        None => match resolve_group_name(token.as_str(), headers) {
            Ok(c) => {
                let i: usize = index_of_column(headers, c.as_str());
                Ok(DriverSpec { label: c, col_idx: Some(i), agg: DriverAgg::Sum })
            },
            Err(e) => Err(e),
        },
    }
}

// ---------------------------------------------------------------------------
// Lists of drivers
// ---------------------------------------------------------------------------

/// The drivers of a list, each name once.
pub open spec fn distinct_drivers(specs: Seq<DriverView>) -> Seq<DriverView> {
    list::distinct_by(specs, |d: DriverView| d.label)
}

/// Keeps the first driver of each name.
#[verifier::loop_isolation(false)]
pub fn dedup_driver_specs(specs: Vec<DriverSpec>) -> (r: Vec<DriverSpec>)
    ensures
        driver_views(r@) == distinct_drivers(driver_views(specs@)),
{
    let ghost all = driver_views(specs@);
    let ghost key = |d: DriverView| d.label;
    let mut out: Vec<DriverSpec> = Vec::new();
    let mut i: usize = 0;
    assert(driver_views(out@) =~= list::distinct_by(all.take(0), key));
    while i < specs.len()
        invariant
            i <= specs.len(),
            driver_views(out@) == list::distinct_by(all.take(i as int), key),
        decreases specs.len() - i,
    {
        assert(all.take(i + 1).drop_last() =~= all.take(i as int));
        let ghost front = driver_views(out@);
        let mut k: usize = 0;
        let mut seen: bool = false;
        while k < out.len() && !seen
            invariant
                k <= out.len(),
                seen ==> exists|j: int| 0 <= j < front.len() && key(#[trigger] front[j]) == key(all[i as int]),
                !seen ==> forall|j: int| 0 <= j < k ==> key(#[trigger] front[j]) != key(all[i as int]),
            decreases out.len() - k,
        {
            assert(front[k as int] == out@[k as int]@);
            if same(out[k].label.as_str(), specs[i].label.as_str()) {
                seen = true;
                assert(key(front[k as int]) == key(all[i as int]));
            }
            k += 1;
        }
        if !seen {
            push_spec(&mut out, copy_spec(&specs[i]));
        }
        i += 1;
    }
    assert(all.take(all.len() as int) =~= all);
    out
}

/// A driver's name, or the column that it is a function of, is in the list.
pub open spec fn is_listed(label: Seq<char>, names: Seq<Seq<char>>) -> bool {
    names.contains(text::lower(label)) || match call_parts(label) {
        Some(p) => names.contains(text::lower(p.1)),
        None => false,
    }
}

fn listed(label: &str, names: &Vec<String>) -> (r: bool)
    ensures
        r == is_listed(label@, text::views(names@)),
{
    if among(names.as_slice(), to_lower(label).as_str()) {
        return true;
    }
    match parse_driver_fn(label) {
        Some(p) => among(names.as_slice(), to_lower(p.1.as_str()).as_str()),
        None => false,
    }
}

/// The names of a list in lower case, without the blank ones.
pub open spec fn tidy_names(names: Seq<Seq<char>>) -> Seq<Seq<char>>
    decreases names.len(),
{
    if names.len() == 0 {
        Seq::empty()
    } else {
        let front = tidy_names(names.drop_last());
        let n = text::lower(text::trim(names.last()));
        if n.len() > 0 {
            front.push(n)
        } else {
            front
        }
    }
}

#[verifier::loop_isolation(false)]
fn tidy(names: &[String]) -> (r: Vec<String>)
    ensures
        text::views(r@) == tidy_names(text::views(names@)),
{
    let ghost all = text::views(names@);
    let mut out: Vec<String> = Vec::new();
    let mut i: usize = 0;
    assert(text::views(out@) =~= tidy_names(all.take(0)));
    while i < names.len()
        invariant
            i <= names.len(),
            text::views(out@) == tidy_names(all.take(i as int)),
        decreases names.len() - i,
    {
        assert(all.take(i + 1).drop_last() =~= all.take(i as int));
        assert(all[i as int] == names@[i as int]@);
        let n = to_lower(trimmed(names[i].as_str()).as_str());
        if !n.as_str().is_empty() {
            crate::report::say(&mut out, n);
        }
        i += 1;
    }
    assert(all.take(all.len() as int) =~= all);
    out
}

/// A driver stays: it is listed for inclusion, where anything is, and not for exclusion.
pub open spec fn stays(wanted: Seq<Seq<char>>, unwanted: Seq<Seq<char>>) -> spec_fn(DriverView) -> bool {
    |d: DriverView|
        (tidy_names(wanted).len() == 0 || is_listed(d.label, tidy_names(wanted)))
            && !is_listed(d.label, tidy_names(unwanted))
}

/// Keeps the drivers that are to be included and drops those to be excluded,
/// by their names or by the columns that they are functions of.
#[verifier::loop_isolation(false)]
pub fn apply_driver_filters(
    specs: Vec<DriverSpec>,
    driver_include: &[String],
    driver_exclude: &[String],
) -> (r: Vec<DriverSpec>)
    ensures
        driver_views(r@) == list::keep(
            driver_views(specs@),
            stays(text::views(driver_include@), text::views(driver_exclude@)),
        ),
{
    let wanted = tidy(driver_include);
    let unwanted = tidy(driver_exclude);
    let ghost all = driver_views(specs@);
    let ghost p = stays(text::views(driver_include@), text::views(driver_exclude@));
    let mut out: Vec<DriverSpec> = Vec::new();
    let mut i: usize = 0;
    assert(driver_views(out@) =~= list::keep(all.take(0), p));
    while i < specs.len()
        invariant
            i <= specs.len(),
            driver_views(out@) == list::keep(all.take(i as int), p),
        decreases specs.len() - i,
    {
        assert(all.take(i + 1).drop_last() =~= all.take(i as int));
        assert(text::views(wanted@).len() == wanted@.len());
        let label = specs[i].label.as_str();
        if (wanted.len() == 0 || listed(label, &wanted)) && !listed(label, &unwanted) {
            push_spec(&mut out, copy_spec(&specs[i]));
        }
        i += 1;
    }
    assert(all.take(all.len() as int) =~= all);
    out
}

/// Dropping doubles twice is dropping them once, and the names that are left differ.
pub proof fn law_distinct_drivers(specs: Seq<DriverView>)
    ensures
        distinct_drivers(distinct_drivers(specs)) == distinct_drivers(specs),
        forall|i: int, j: int|
            0 <= i < j < distinct_drivers(specs).len() ==> (#[trigger] distinct_drivers(
                specs,
            )[i]).label != (#[trigger] distinct_drivers(specs)[j]).label,
{
    let key = |d: DriverView| d.label;
    list::lemma_distinct_by(specs, key);
    let out = distinct_drivers(specs);
    assert forall|i: int, j: int| 0 <= i < j < out.len() implies key(#[trigger] out[i]) != key(
        #[trigger] out[j],
    ) by {}
    list::lemma_distinct_by_fixed(out, key);
}

// ---------------------------------------------------------------------------
// Columns as candidates
// ---------------------------------------------------------------------------

/// A column of numbers: at least 20 cells are filled, and at least four
/// fifths of them hold numbers.
pub open spec fn is_numeric_column(cells: Seq<Seq<char>>) -> bool {
    cells.len() >= 20 && 5 * table::numeric_cells(cells).len() >= 4 * cells.len()
}

fn numeric_enough(cells: &Vec<String>) -> (r: bool)
    requires
        cells@.len() <= SAMPLED_ROWS,
    ensures
        r == is_numeric_column(text::views(cells@)),
{
    let n: usize = cells.len();
    let k: usize = count_numeric(cells);
    n >= 20 && 5 * k >= 4 * n
}

proof fn lemma_sampled(rows: Seq<Vec<String>>, i: int, limit: usize)
    ensures
        table::filled_cells(rows, i, table::sample_size(rows, limit)).len() <= limit,
{
    table::lemma_filled_cells(rows, i, table::sample_size(rows, limit));
}

/// Whether a column holds numbers, by its first SAMPLED_ROWS rows.
pub fn infer_numeric_column(rows: &Vec<Vec<String>>, idx: usize) -> (r: bool)
    ensures
        r == is_numeric_column(
            table::filled_cells(rows@, idx as int, table::sample_size(rows@, SAMPLED_ROWS)),
        ),
{
    let cells = column_cells(rows, idx, SAMPLED_ROWS);
    proof {
        lemma_sampled(rows@, idx as int, SAMPLED_ROWS);
        assert(text::views(cells@).len() == cells@.len());
    }
    numeric_enough(&cells)
}

/// Texts in lower case.
pub open spec fn lowered(cells: Seq<Seq<char>>) -> Seq<Seq<char>> {
    cells.map_values(|c: Seq<char>| text::lower(c))
}

/// How many different cells there are, whatever the case of their letters.
pub open spec fn variety(cells: Seq<Seq<char>>) -> int {
    list::distinct_by(lowered(cells), |k: Seq<char>| k).len() as int
}

/// How many different cells a column has in its first `max_rows` rows, and how
/// many that are filled.
pub fn approx_distinct_count(rows: &Vec<Vec<String>>, idx: usize, max_rows: usize) -> (r: (
    usize,
    usize,
))
    ensures
        ({
            let cells = table::filled_cells(rows@, idx as int, table::sample_size(rows@, max_rows));
            r.0 == variety(cells) && r.1 == cells.len() && r.0 <= r.1 <= max_rows
        }),
{
    let cells = column_cells(rows, idx, max_rows);
    let ghost all = text::views(cells@);
    let mut low: Vec<String> = Vec::new();
    let mut i: usize = 0;
    while i < cells.len()
        invariant
            i <= cells.len(),
            low.len() == i,
            forall|k: int| 0 <= k < i ==> (#[trigger] low@[k])@ == text::lower(cells@[k]@),
        decreases cells.len() - i,
    {
        low.push(to_lower(cells[i].as_str()));
        i += 1;
    }
    assert(text::views(low@) =~= lowered(all));
    proof {
        lemma_sampled(rows@, idx as int, max_rows);
        assert(all.len() == cells@.len());
    }
    (count_distinct(&low), cells.len())
}

/// The columns of a list with their indices.
pub open spec fn column_views(s: Seq<(String, usize)>) -> Seq<(Seq<char>, int)> {
    Seq::new(s.len(), |i: int| (s[i].0@, s[i].1 as int))
}

fn push_column(out: &mut Vec<(String, usize)>, name: &str, idx: usize)
    ensures
        column_views(final(out)@) == column_views(old(out)@).push((name@, idx as int)),
{
    let ghost before = column_views(out@);
    out.push((name.to_owned(), idx));
    assert(column_views(out@) =~= before.push((name@, idx as int)));
}

/// `s` without an ending, as often as it ends so.
pub open spec fn without_endings(s: Seq<char>, ending: Seq<char>) -> Seq<char>
    decreases s.len(),
{
    if ending.len() > 0 && scan::ends_with(s, ending) {
        without_endings(s.take(s.len() - ending.len()), ending)
    } else {
        s
    }
}

fn cut_endings(s: &str, ending: &str) -> (r: String)
    requires
        ending@.len() > 0,
    ensures
        r@ == without_endings(s@, ending@),
{
    let m: usize = length(ending);
    let mut out = s.to_owned();
    while ends(out.as_str(), ending)
        invariant
            m == ending@.len(),
            m > 0,
            without_endings(out@, ending@) == without_endings(s@, ending@),
        decreases out@.len(),
    {
        let n: usize = length(out.as_str());
        let next = slice(out.as_str(), 0, n - m);
        assert(next@ =~= out@.take(out@.len() - ending@.len()));
        out = next;
    }
    out
}

/// A column of identifiers, by its name; one of universal identifiers does not
/// count where the table has plain identifiers of the same thing.
pub open spec fn is_id_name(name: Seq<char>, headers: Seq<Seq<char>>) -> bool {
    let n = text::lower(name);
    let doubled = scan::ends_with(n, "_uuid"@) && lowered(headers).contains(
        without_endings(n, "_uuid"@) + "_id"@,
    );
    (n == "id"@ || scan::ends_with(n, "_id"@) || scan::ends_with(n, "_uuid"@)) && !doubled
}

/// The columns of identifiers among the first `n`.
pub open spec fn id_columns(
    headers: Seq<Seq<char>>,
    metric_idx: int,
    date_idx: int,
    n: int,
) -> Seq<(Seq<char>, int)>
    decreases n,
{
    if n <= 0 {
        Seq::empty()
    } else {
        let front = id_columns(headers, metric_idx, date_idx, n - 1);
        if n - 1 != metric_idx && n - 1 != date_idx && is_id_name(headers[n - 1], headers) {
            front.push((headers[n - 1], n - 1))
        } else {
            front
        }
    }
}

pub open spec fn by_name(a: (String, usize), b: (String, usize)) -> bool {
    order::text_less(a.0@, b.0@)
}

pub open spec fn name_order() -> spec_fn((String, usize), (String, usize)) -> bool {
    |a: (String, usize), b: (String, usize)| by_name(a, b)
}

/// The columns are those of the list in the order of their names, at most `max_n`.
pub open spec fn named_first(
    out: Seq<(String, usize)>,
    columns: Seq<(Seq<char>, int)>,
    max_n: usize,
) -> bool {
    exists|all: Seq<(String, usize)>|
        #[trigger] column_views(all) == columns && out == crate::answers::at_most(
            order::sorted(all, name_order()),
            max_n as int,
        )
}

#[verifier::loop_isolation(false)]
fn lower_all(names: &[String]) -> (r: Vec<String>)
    ensures
        text::views(r@) == lowered(text::views(names@)),
{
    let mut out: Vec<String> = Vec::new();
    let mut i: usize = 0;
    while i < names.len()
        invariant
            i <= names.len(),
            out.len() == i,
            forall|k: int| 0 <= k < i ==> (#[trigger] out@[k])@ == text::lower(names@[k]@),
        decreases names.len() - i,
    {
        out.push(to_lower(names[i].as_str()));
        i += 1;
    }
    assert(text::views(out@) =~= lowered(text::views(names@)));
    out
}

fn names_identifier(name: &str, low: &Vec<String>, Ghost(headers): Ghost<Seq<Seq<char>>>) -> (r:
    bool)
    requires
        text::views(low@) == lowered(headers),
    ensures
        r == is_id_name(name@, headers),
{
    let n = to_lower(name);
    let s = n.as_str();
    proof {
        reveal_strlit("_uuid");
    }
    let mut doubled: bool = false;
    if ends(s, "_uuid") {
        let plain = cat2(cut_endings(s, "_uuid").as_str(), "_id");
        doubled = among(low.as_slice(), plain.as_str());
    }
    (same(s, "id") || ends(s, "_id") || ends(s, "_uuid")) && !doubled
}

/// The columns of identifiers that count as drivers, in the order of their names.
#[verifier::loop_isolation(false)]
pub fn auto_select_id_like_drivers(
    headers: &[String],
    metric_idx: usize,
    date_idx: usize,
    max_n: usize,
) -> (r: Vec<(String, usize)>)
    ensures
        named_first(
            r@,
            id_columns(
                text::views(headers@),
                metric_idx as int,
                date_idx as int,
                headers@.len() as int,
            ),
            max_n,
        ),
{
    let ghost hs = text::views(headers@);
    let low = lower_all(headers);
    let mut all: Vec<(String, usize)> = Vec::new();
    let mut i: usize = 0;
    assert(column_views(all@) =~= Seq::empty());
    while i < headers.len()
        invariant
            i <= headers.len(),
            column_views(all@) == id_columns(hs, metric_idx as int, date_idx as int, i as int),
        decreases headers.len() - i,
    {
        assert(hs[i as int] == headers@[i as int]@);
        if i != metric_idx && i != date_idx && names_identifier(
            headers[i].as_str(),
            &low,
            Ghost(hs),
        ) {
            push_column(&mut all, headers[i].as_str(), i);
        }
        i += 1;
    }
    let ghost unsorted = all@;
    let precedes = |a: &(String, usize), b: &(String, usize)| -> (x: bool)
        ensures
            x == by_name(*a, *b),
        { text_before(a.0.as_str(), b.0.as_str()) };
    let mut out = sort_by(all, precedes, Ghost(name_order()));
    out.truncate(max_n);
    assert(column_views(unsorted) == id_columns(
        hs,
        metric_idx as int,
        date_idx as int,
        headers@.len() as int,
    ));
    assert(out@ == crate::answers::at_most(order::sorted(unsorted, name_order()), max_n as int));
    out
}

/// How well a column serves as a category, by its name and its variety.
pub open spec fn category_score(lname: Seq<char>, distinct: int) -> int {
    let a: int = if mentions_one(
        lname,
        seq![
            "category",
            "subcategory",
            "segment",
            "plan",
            "tier",
            "type",
            "channel",
            "region",
            "country",
            "market",
            "vertical",
        ],
    ) {
        30
    } else {
        0
    };
    let b: int = if mentions_one(
        lname,
        seq!["status", "invoice", "backoffice", "computed", "created", "updated", "last_"],
    ) {
        30
    } else {
        0
    };
    let c: int = if mentions_one(
        lname,
        seq!["name", "title", "description", "comment", "note", "email", "address"],
    ) {
        25
    } else {
        0
    };
    let d: int = if distinct <= 30 {
        8
    } else if distinct <= 80 {
        4
    } else {
        -5
    };
    a - b - c + d
}

fn rate_category(lname: &str, distinct: usize) -> (r: i32)
    ensures
        r == category_score(lname@, distinct as int),
{
    let mut score: i32 = 0;
    if contains_any(
        lname,
        &[
            "category",
            "subcategory",
            "segment",
            "plan",
            "tier",
            "type",
            "channel",
            "region",
            "country",
            "market",
            "vertical",
        ],
    ) {
        score += 30;
    }
    if contains_any(
        lname,
        &["status", "invoice", "backoffice", "computed", "created", "updated", "last_"],
    ) {
        score -= 30;
    }
    if contains_any(
        lname,
        &["name", "title", "description", "comment", "note", "email", "address"],
    ) {
        score -= 25;
    }
    if distinct <= 30 {
        score += 8;
    } else if distinct <= 80 {
        score += 4;
    } else {
        score -= 5;
    }
    score
}

/// A column can be a category: its name speaks of no time, it holds no
/// numbers, at least 20 cells are filled, and there are between two different
/// cells and 35 in a hundred.
pub open spec fn can_be_category(name: Seq<char>, cells: Seq<Seq<char>>) -> bool {
    let n = text::lower(name);
    &&& !scan::contains(n, "date"@)
    &&& !scan::contains(n, "time"@)
    &&& !is_numeric_column(cells)
    &&& cells.len() >= 20
    &&& variety(cells) >= 2
    &&& 20 * variety(cells) <= 7 * cells.len()
}

/// The columns that can be categories among the first `n`, with their scores.
pub open spec fn category_columns(
    headers: Seq<Seq<char>>,
    rows: Seq<Vec<String>>,
    metric_idx: int,
    date_idx: int,
    used: Seq<usize>,
    n: int,
) -> Seq<(Seq<char>, int, int)>
    decreases n,
{
    if n <= 0 {
        Seq::empty()
    } else {
        let front = category_columns(headers, rows, metric_idx, date_idx, used, n - 1);
        let cells = table::filled_cells(rows, n - 1, table::sample_size(rows, SAMPLED_ROWS));
        if n - 1 != metric_idx && n - 1 != date_idx && !used.contains((n - 1) as usize)
            && can_be_category(headers[n - 1], cells) {
            front.push(
                (headers[n - 1], n - 1, category_score(text::lower(headers[n - 1]), variety(cells))),
            )
        } else {
            front
        }
    }
}

/// A column with a score.
#[derive(Clone, Debug)]
pub struct RatedColumn {
    pub name: String,
    pub idx: usize,
    pub score: i32,
}

pub open spec fn rated_views(s: Seq<RatedColumn>) -> Seq<(Seq<char>, int, int)> {
    Seq::new(s.len(), |i: int| (s[i].name@, s[i].idx as int, s[i].score as int))
}

pub open spec fn better_rated(a: RatedColumn, b: RatedColumn) -> bool {
    b.score < a.score || (a.score == b.score && order::text_less(a.name@, b.name@))
}

pub open spec fn rating_order() -> spec_fn(RatedColumn, RatedColumn) -> bool {
    |a: RatedColumn, b: RatedColumn| better_rated(a, b)
}

/// The columns are those of the list, the best rated first, equally rated ones
/// by name, at most `max_n`.
pub open spec fn best_rated(
    out: Seq<(String, usize)>,
    columns: Seq<(Seq<char>, int, int)>,
    max_n: usize,
) -> bool {
    exists|all: Seq<RatedColumn>|
        #[trigger] rated_views(all) == columns && column_views(out) == crate::answers::at_most(
            order::sorted(all, rating_order()).map_values(
                |c: RatedColumn| (c.name@, c.idx as int),
            ),
            max_n as int,
        )
}

fn holds_index(used: &Vec<usize>, x: usize) -> (r: bool)
    ensures
        r == used@.contains(x),
{
    let mut i: usize = 0;
    while i < used.len()
        invariant
            i <= used.len(),
            forall|k: int| 0 <= k < i ==> used@[k] != x,
        decreases used.len() - i,
    {
        if used[i] == x {
            assert(used@[i as int] == x);
            return true;
        }
        i += 1;
    }
    false
}

/// The columns that serve best as categories, without those in use.
#[verifier::loop_isolation(false)]
pub fn auto_select_categorical_drivers(
    headers: &[String],
    rows: &Vec<Vec<String>>,
    metric_idx: usize,
    date_idx: usize,
    max_n: usize,
    used_cols: &Vec<usize>,
) -> (r: Vec<(String, usize)>)
    ensures
        best_rated(
            r@,
            category_columns(
                text::views(headers@),
                rows@,
                metric_idx as int,
                date_idx as int,
                used_cols@,
                headers@.len() as int,
            ),
            max_n,
        ),
{
    let ghost hs = text::views(headers@);
    let ghost wanted = category_columns(
        hs,
        rows@,
        metric_idx as int,
        date_idx as int,
        used_cols@,
        headers@.len() as int,
    );
    let mut all: Vec<RatedColumn> = Vec::new();
    let mut i: usize = 0;
    assert(rated_views(all@) =~= Seq::empty());
    while i < headers.len()
        invariant
            i <= headers.len(),
            rated_views(all@) == category_columns(
                hs,
                rows@,
                metric_idx as int,
                date_idx as int,
                used_cols@,
                i as int,
            ),
        decreases headers.len() - i,
    {
        assert(hs[i as int] == headers@[i as int]@);
        let ghost before = rated_views(all@);
        if i != metric_idx && i != date_idx && !holds_index(used_cols, i) {
            let n = to_lower(headers[i].as_str());
            if !mentions(n.as_str(), "date") && !mentions(n.as_str(), "time")
                && !infer_numeric_column(rows, i) {
                let (distinct, filled) = approx_distinct_count(rows, i, SAMPLED_ROWS);
                if filled >= 20 && distinct >= 2 && 20 * distinct <= 7 * filled {
                    let score: i32 = rate_category(n.as_str(), distinct);
                    all.push(RatedColumn { name: headers[i].clone(), idx: i, score });
                    assert(rated_views(all@) =~= before.push(
                        (hs[i as int], i as int, score as int),
                    ));
                }
            }
        }
        i += 1;
    }
    let ghost unsorted = all@;
    let precedes = |a: &RatedColumn, b: &RatedColumn| -> (x: bool)
        ensures
            x == better_rated(*a, *b),
        {
            b.score < a.score || (a.score == b.score && text_before(
                a.name.as_str(),
                b.name.as_str(),
            ))
        };
    let sorted = sort_by(all, precedes, Ghost(rating_order()));
    let ghost ranked = sorted@.map_values(|c: RatedColumn| (c.name@, c.idx as int));
    let mut out: Vec<(String, usize)> = Vec::new();
    let mut k: usize = 0;
    assert(column_views(out@) =~= ranked.take(0));
    while k < sorted.len() && k < max_n
        invariant
            k <= sorted.len(),
            k <= max_n,
            column_views(out@) == ranked.take(k as int),
        decreases sorted.len() - k,
    {
        push_column(&mut out, sorted[k].name.as_str(), sorted[k].idx);
        assert(column_views(out@) =~= ranked.take(k + 1));
        k += 1;
    }
    assert(column_views(out@) =~= crate::answers::at_most(ranked, max_n as int));
    assert(rated_views(unsorted) == wanted);
    out
}

// ---------------------------------------------------------------------------
// Numeric drivers
// ---------------------------------------------------------------------------

/// A name that no numeric driver has: of identifiers, times, counts or identities.
pub open spec fn is_unfit_name(lname: Seq<char>) -> bool {
    lname == "id"@ || scan::ends_with(lname, "_id"@) || scan::contains(lname, "date"@)
        || scan::contains(lname, "time"@) || is_count_name(lname) || is_identity_name(lname)
}

fn unfit_name(lname: &str) -> (r: bool)
    ensures
        r == is_unfit_name(lname@),
{
    same(lname, "id") || ends(lname, "_id") || mentions(lname, "date") || mentions(lname, "time")
        || is_count_like_numeric_column(lname) || is_text_identity_like_column(lname)
}

/// The rows below `n` in which both the column and the metric hold numbers.
pub open spec fn paired(rows: Seq<Vec<String>>, idx: int, metric_idx: int, n: int) -> int
    decreases n,
{
    if n <= 0 {
        0
    } else {
        paired(rows, idx, metric_idx, n - 1) + if numeric::is_numeric_cell(
            groups::cell(rows[n - 1]@, idx),
        ) && numeric::is_numeric_cell(groups::cell(rows[n - 1]@, metric_idx)) {
            1int
        } else {
            0int
        }
    }
}

fn count_paired(rows: &Vec<Vec<String>>, idx: usize, metric_idx: usize, limit: usize) -> (r: usize)
    ensures
        r == paired(rows@, idx as int, metric_idx as int, table::sample_size(rows@, limit)),
{
    let n: usize = if rows.len() < limit {
        rows.len()
    } else {
        limit
    };
    let mut k: usize = 0;
    let mut i: usize = 0;
    while i < n
        invariant
            i <= n <= rows.len(),
            k <= i,
            k == paired(rows@, idx as int, metric_idx as int, i as int),
        decreases n - i,
    {
        if numeric_cell(cell_of(&rows[i], idx).as_str()) && numeric_cell(
            cell_of(&rows[i], metric_idx).as_str(),
        ) {
            k += 1;
        }
        i += 1;
    }
    k
}

/// A column can be a numeric driver, by its name in lower case and its cells:
/// enough of them, varied enough, mostly numbers, and enough of them beside a
/// number of the metric.
pub open spec fn can_be_driver(lname: Seq<char>, cells: Seq<Seq<char>>, pairs: int) -> bool {
    &&& !is_unfit_name(lname)
    &&& cells.len() >= 20
    &&& variety(cells) > 3
    &&& !(is_indicator_name(lname) && variety(cells) <= 10)
    &&& 5 * table::numeric_cells(cells).len() >= 3 * cells.len()
    &&& pairs >= 20
}

/// The columns that can be numeric drivers among the first `n`.
pub open spec fn driver_columns(
    headers: Seq<Seq<char>>,
    rows: Seq<Vec<String>>,
    metric_idx: int,
    date_idx: int,
    n: int,
) -> Seq<(Seq<char>, int)>
    decreases n,
{
    if n <= 0 {
        Seq::empty()
    } else {
        let front = driver_columns(headers, rows, metric_idx, date_idx, n - 1);
        let size = table::sample_size(rows, SAMPLED_ROWS);
        if n - 1 != metric_idx && n - 1 != date_idx && can_be_driver(
            text::lower_case(headers[n - 1]),
            table::filled_cells(rows, n - 1, size),
            paired(rows, n - 1, metric_idx, size),
        ) {
            front.push((headers[n - 1], n - 1))
        } else {
            front
        }
    }
}

fn serves_as_driver(
    lname: &str,
    rows: &Vec<Vec<String>>,
    idx: usize,
    metric_idx: usize,
) -> (r: bool)
    ensures
        r == can_be_driver(
            lname@,
            table::filled_cells(rows@, idx as int, table::sample_size(rows@, SAMPLED_ROWS)),
            paired(rows@, idx as int, metric_idx as int, table::sample_size(rows@, SAMPLED_ROWS)),
        ),
{
    if unfit_name(lname) {
        return false;
    }
    let (distinct, filled) = approx_distinct_count(rows, idx, SAMPLED_ROWS);
    if filled < 20 || distinct <= 3 || (is_indicator_like_numeric_column(lname) && distinct <= 10) {
        return false;
    }
    let cells = column_cells(rows, idx, SAMPLED_ROWS);
    let n: usize = cells.len();
    let k: usize = count_numeric(&cells);
    proof {
        lemma_sampled(rows@, idx as int, SAMPLED_ROWS);
        assert(text::views(cells@).len() == cells@.len());
    }
    if 5 * k < 3 * n {
        return false;
    }
    count_paired(rows, idx, metric_idx, SAMPLED_ROWS) >= 20
}

/// The columns that can be numeric drivers. Which of them are is decided by
/// their correlations with the metric.
#[verifier::loop_isolation(false)]
pub fn numeric_driver_candidates(
    headers: &[String],
    rows: &Vec<Vec<String>>,
    metric_idx: usize,
    date_idx: usize,
) -> (r: Vec<(String, usize)>)
    ensures
        column_views(r@) == driver_columns(
            text::views(headers@),
            rows@,
            metric_idx as int,
            date_idx as int,
            headers@.len() as int,
        ),
{
    let ghost hs = text::views(headers@);
    let mut out: Vec<(String, usize)> = Vec::new();
    let mut i: usize = 0;
    assert(column_views(out@) =~= Seq::empty());
    while i < headers.len()
        invariant
            i <= headers.len(),
            column_views(out@) == driver_columns(
                hs,
                rows@,
                metric_idx as int,
                date_idx as int,
                i as int,
            ),
        decreases headers.len() - i,
    {
        assert(hs[i as int] == headers@[i as int]@);
        if i != metric_idx && i != date_idx {
            let lname = to_lower_case(headers[i].as_str());
            if serves_as_driver(lname.as_str(), rows, i, metric_idx) {
                push_column(&mut out, headers[i].as_str(), i);
            }
        }
        i += 1;
    }
    out
}

/// A candidate, by its place, with the absolute value of its correlation with
/// the metric.
#[derive(Clone, Copy, Debug)]
pub struct Scored {
    pub place: usize,
    pub correlation: Num,
}

/// The candidates with their correlations.
pub open spec fn scored(correlations: Seq<Num>) -> Seq<Scored> {
    Seq::new(
        correlations.len(),
        |i: int| Scored { place: i as usize, correlation: correlations[i] },
    )
}

/// The name of a candidate.
pub open spec fn name_of(columns: Seq<(Seq<char>, int)>, place: int) -> Seq<char> {
    if 0 <= place < columns.len() {
        columns[place].0
    } else {
        ""@
    }
}

fn name_at<'a>(columns: &'a Vec<(String, usize)>, place: usize) -> (r: &'a str)
    ensures
        r@ == name_of(column_views(columns@), place as int),
{
    if place < columns.len() {
        columns[place].0.as_str()
    } else {
        ""
    }
}

pub open spec fn is_stronger(columns: Seq<(Seq<char>, int)>, a: Scored, b: Scored) -> bool {
    b.correlation.lt(a.correlation) || (!a.correlation.lt(b.correlation) && order::text_less(
        name_of(columns, a.place as int),
        name_of(columns, b.place as int),
    ))
}

/// The strongest correlations come first, equally strong ones by name.
pub open spec fn stronger(columns: Seq<(Seq<char>, int)>) -> spec_fn(Scored, Scored) -> bool {
    |a: Scored, b: Scored| is_stronger(columns, a, b)
}

pub open spec fn has_correlation() -> spec_fn(Scored) -> bool {
    |c: Scored| c.correlation.magnitude() < crate::num::INFINITE
}

/// The places of the candidates with a finite correlation, the strongest first.
pub open spec fn ranked_columns(columns: Seq<(Seq<char>, int)>, correlations: Seq<Num>) -> Seq<
    usize,
> {
    order::sorted(
        list::keep(scored(correlations), has_correlation()),
        stronger(columns),
    ).map_values(|c: Scored| c.place)
}

proof fn lemma_ranked(columns: Seq<(Seq<char>, int)>, correlations: Seq<Num>)
    requires
        correlations.len() <= usize::MAX,
    ensures
        forall|i: int|
            0 <= i < ranked_columns(columns, correlations).len() ==> 0
                <= #[trigger] ranked_columns(columns, correlations)[i] < correlations.len(),
        forall|i: int, j: int|
            0 <= i < j < ranked_columns(columns, correlations).len() ==> #[trigger] ranked_columns(
                columns,
                correlations,
            )[i] != #[trigger] ranked_columns(columns, correlations)[j],
{
    let all = scored(correlations);
    let kept = list::keep(all, has_correlation());
    let s = order::sorted(kept, stronger(columns));
    list::lemma_keep(all, has_correlation());
    lemma_kept_distinct(correlations, correlations.len() as int);
    assert(all.take(correlations.len() as int) =~= all);
    order::lemma_sorted_permutation(kept, stronger(columns));
    s.to_multiset_ensures();
    kept.to_multiset_ensures();
    assert forall|i: int| 0 <= i < s.len() implies 0 <= (#[trigger] s[i]).place < correlations.len()
        && s[i] == all[s[i].place as int] by {
        assert(s.to_multiset().count(s[i]) > 0);
        assert(kept.contains(s[i]));
        let k = choose|k: int| 0 <= k < kept.len() && kept[k] == s[i];
        assert(all.contains(kept[k]));
    }
    assert(kept.no_duplicates());
    kept.lemma_multiset_has_no_duplicates();
    s.lemma_multiset_has_no_duplicates_conv();
    let r = ranked_columns(columns, correlations);
    assert forall|i: int, j: int| 0 <= i < j < r.len() implies #[trigger] r[i] != #[trigger] r[j] by {
        assert(s[i] != s[j]);
    }
}

proof fn lemma_kept_distinct(correlations: Seq<Num>, n: int)
    requires
        0 <= n <= correlations.len() <= usize::MAX,
    ensures
        ({
            let kept = list::keep(scored(correlations).take(n), has_correlation());
            &&& kept.no_duplicates()
            &&& forall|i: int| 0 <= i < kept.len() ==> (#[trigger] kept[i]).place < n
        }),
    decreases n,
{
    let all = scored(correlations);
    if n > 0 {
        lemma_kept_distinct(correlations, n - 1);
        assert(all.take(n).drop_last() =~= all.take(n - 1));
        assert(all.take(n).last() == all[n - 1]);
    }
}

/// Puts the candidates with the strongest correlations first, equally strong
/// ones by name; gives their places. Correlations that are not finite are left
/// out.
pub fn rank_numeric_columns(candidates: &Vec<(String, usize)>, correlations: &Vec<Num>) -> (r: Vec<
    usize,
>)
    requires
        correlations.len() == candidates.len(),
    ensures
        r@ == ranked_columns(column_views(candidates@), correlations@),
        forall|i: int| 0 <= i < r@.len() ==> #[trigger] r@[i] < candidates@.len(),
{
    let ghost p = has_correlation();
    let ghost all = scored(correlations@);
    let mut kept: Vec<Scored> = Vec::new();
    let mut i: usize = 0;
    assert(kept@ =~= list::keep(all.take(0), p));
    while i < correlations.len()
        invariant
            i <= correlations.len(),
            p == has_correlation(),
            all == scored(correlations@),
            kept@ == list::keep(all.take(i as int), p),
        decreases correlations.len() - i,
    {
        assert(all.take(i + 1).drop_last() =~= all.take(i as int));
        let item = Scored { place: i, correlation: correlations[i] };
        assert(all.take(i + 1).last() == item);
        if correlations[i].finite() {
            kept.push(item);
        }
        i += 1;
    }
    assert(all.take(all.len() as int) =~= all);
    let precedes = |a: &Scored, b: &Scored| -> (x: bool)
        ensures
            x == is_stronger(column_views(candidates@), *a, *b),
        {
            b.correlation.less(a.correlation) || (!a.correlation.less(b.correlation)
                && text_before(name_at(candidates, a.place), name_at(candidates, b.place)))
        };
    let sorted = sort_by(kept, precedes, Ghost(stronger(column_views(candidates@))));
    let mut out: Vec<usize> = Vec::new();
    let mut k: usize = 0;
    while k < sorted.len()
        invariant
            k <= sorted.len(),
            out.len() == k,
            forall|j: int| 0 <= j < k ==> #[trigger] out@[j] == sorted@[j].place,
        decreases sorted.len() - k,
    {
        out.push(sorted[k].place);
        k += 1;
    }
    assert(out@ =~= ranked_columns(column_views(candidates@), correlations@));
    proof {
        lemma_ranked(column_views(candidates@), correlations@);
    }
    out
}

/// The bit pattern of 0.95, from which on two columns say the same.
pub const ALIKE: u64 = 0x3fee_6666_6666_6666;

/// Two candidates say the same. `likeness[i][j]` is the absolute value of the
/// correlation of candidate `i` with candidate `j`.
pub open spec fn alike(likeness: Seq<Vec<Num>>, i: int, j: int) -> bool {
    likeness[i]@[j].magnitude() < crate::num::INFINITE && (Num { bits: ALIKE }).le(likeness[i]@[j])
}

/// The candidates chosen among the first `n` ranked ones: each that says
/// something that no chosen one says, until there are `top_n`.
pub open spec fn chosen_columns(
    ranked: Seq<usize>,
    likeness: Seq<Vec<Num>>,
    dedup: bool,
    top_n: int,
    n: int,
) -> Seq<usize>
    decreases n,
{
    if n <= 0 {
        Seq::empty()
    } else {
        let front = chosen_columns(ranked, likeness, dedup, top_n, n - 1);
        if front.len() >= top_n || (dedup && exists|k: int|
            0 <= k < front.len() && alike(
                likeness,
                ranked[n - 1] as int,
                #[trigger] front[k] as int,
            )) {
            front
        } else {
            front.push(ranked[n - 1])
        }
    }
}

/// Every candidate is compared with every other one.
pub open spec fn compares_columns(likeness: Seq<Vec<Num>>, n: int) -> bool {
    likeness.len() == n && forall|i: int| 0 <= i < n ==> (#[trigger] likeness[i])@.len() == n
}

#[verifier::loop_isolation(false)]
fn choose_columns(
    ranked: &Vec<usize>,
    likeness: &Vec<Vec<Num>>,
    top_n: usize,
    dedup: bool,
    count: usize,
) -> (r: Vec<usize>)
    requires
        dedup ==> compares_columns(likeness@, count as int),
        forall|i: int| 0 <= i < ranked@.len() ==> #[trigger] ranked@[i] < count,
    ensures
        r@ == chosen_columns(ranked@, likeness@, dedup, top_n as int, ranked@.len() as int),
        forall|i: int| 0 <= i < r@.len() ==> #[trigger] r@[i] < count,
{
    let mut chosen: Vec<usize> = Vec::new();
    let mut i: usize = 0;
    while i < ranked.len()
        invariant
            i <= ranked.len(),
            chosen@ == chosen_columns(ranked@, likeness@, dedup, top_n as int, i as int),
            forall|k: int| 0 <= k < chosen@.len() ==> #[trigger] chosen@[k] < count,
        decreases ranked.len() - i,
    {
        let place: usize = ranked[i];
        let mut twin: bool = false;
        if dedup {
            assert(likeness@[place as int]@.len() == count);
            let mut k: usize = 0;
            while k < chosen.len() && !twin
                invariant
                    k <= chosen.len(),
                    twin ==> exists|j: int|
                        0 <= j < chosen@.len() && alike(
                            likeness@,
                            place as int,
                            #[trigger] chosen@[j] as int,
                        ),
                    !twin ==> forall|j: int|
                        0 <= j < k ==> !alike(
                            likeness@,
                            place as int,
                            #[trigger] chosen@[j] as int,
                        ),
                decreases chosen.len() - k,
            {
                let other: usize = chosen[k];
                let c = likeness[place][other];
                if c.finite() && (Num { bits: ALIKE }).at_most(c) {
                    twin = true;
                    assert(alike(likeness@, place as int, chosen@[k as int] as int));
                }
                k += 1;
            }
        }
        if chosen.len() < top_n && !twin {
            chosen.push(place);
        }
        i += 1;
    }
    chosen
}

/// The numeric drivers among candidates: the first `top_n` in the order of
/// their correlations, where asked for without those that say the same as one
/// before them.
pub open spec fn numeric_drivers(
    columns: Seq<(Seq<char>, int)>,
    correlations: Seq<Num>,
    likeness: Seq<Vec<Num>>,
    top_n: int,
    dedup: bool,
) -> Seq<(Seq<char>, int)> {
    let ranked = ranked_columns(columns, correlations);
    chosen_columns(ranked, likeness, dedup, top_n, ranked.len() as int).map_values(
        |i: usize| columns[i as int],
    )
}

/// The numeric drivers of a table. `correlations` holds the absolute
/// correlation of each candidate with the metric, `likeness[i][j]` that of
/// candidate `i` with candidate `j`.
pub fn auto_select_numeric_drivers(
    headers: &[String],
    rows: &Vec<Vec<String>>,
    metric_idx: usize,
    date_idx: usize,
    correlations: &Vec<Num>,
    likeness: &Vec<Vec<Num>>,
    top_n: usize,
    dedup: bool,
) -> (r: Vec<(String, usize)>)
    requires
        correlations@.len() == driver_columns(
            text::views(headers@),
            rows@,
            metric_idx as int,
            date_idx as int,
            headers@.len() as int,
        ).len(),
        dedup ==> compares_columns(likeness@, correlations@.len() as int),
    ensures
        column_views(r@) == numeric_drivers(
            driver_columns(
                text::views(headers@),
                rows@,
                metric_idx as int,
                date_idx as int,
                headers@.len() as int,
            ),
            correlations@,
            likeness@,
            top_n as int,
            dedup,
        ),
{
    let candidates = numeric_driver_candidates(headers, rows, metric_idx, date_idx);
    let ghost columns = column_views(candidates@);
    assert(columns.len() == candidates@.len());
    let ranked = rank_numeric_columns(&candidates, correlations);
    let chosen = choose_columns(&ranked, likeness, top_n, dedup, candidates.len());
    let mut out: Vec<(String, usize)> = Vec::new();
    let mut k: usize = 0;
    let ghost wanted = chosen@.map_values(|i: usize| columns[i as int]);
    assert(column_views(out@) =~= wanted.take(0));
    while k < chosen.len()
        invariant
            k <= chosen.len(),
            columns == column_views(candidates@),
            wanted == chosen@.map_values(|i: usize| columns[i as int]),
            forall|i: int| 0 <= i < chosen@.len() ==> #[trigger] chosen@[i] < candidates.len(),
            column_views(out@) == wanted.take(k as int),
        decreases chosen.len() - k,
    {
        let c: usize = chosen[k];
        push_column(&mut out, candidates[c].0.as_str(), candidates[c].1);
        assert(column_views(out@) =~= wanted.take(k + 1));
        k += 1;
    }
    assert(wanted.take(wanted.len() as int) =~= wanted);
    out
}

proof fn lemma_chosen(
    ranked: Seq<usize>,
    likeness: Seq<Vec<Num>>,
    dedup: bool,
    top_n: int,
    n: int,
)
    requires
        0 <= n <= ranked.len(),
        0 <= top_n,
    ensures
        chosen_columns(ranked, likeness, dedup, top_n, n).len() <= top_n,
        forall|i: int|
            0 <= i < chosen_columns(ranked, likeness, dedup, top_n, n).len() ==> ranked.take(
                n,
            ).contains(#[trigger] chosen_columns(ranked, likeness, dedup, top_n, n)[i]),
    decreases n,
{
    if n > 0 {
        lemma_chosen(ranked, likeness, dedup, top_n, n - 1);
        let front = chosen_columns(ranked, likeness, dedup, top_n, n - 1);
        let all = chosen_columns(ranked, likeness, dedup, top_n, n);
        assert forall|i: int| 0 <= i < all.len() implies ranked.take(n).contains(
            #[trigger] all[i],
        ) by {
            if i < front.len() {
                assert(all[i] == front[i]);
                let taken = ranked.take(n - 1);
                let k = choose|k: int| 0 <= k < taken.len() && taken[k] == front[i];
                assert(ranked.take(n)[k] == all[i]);
            } else {
                assert(ranked.take(n)[n - 1] == all[i]);
            }
        }
    }
}

proof fn lemma_chosen_distinct(
    ranked: Seq<usize>,
    likeness: Seq<Vec<Num>>,
    dedup: bool,
    top_n: int,
    n: int,
)
    requires
        0 <= n <= ranked.len(),
        0 <= top_n,
        forall|i: int, j: int|
            0 <= i < j < ranked.len() ==> #[trigger] ranked[i] != #[trigger] ranked[j],
    ensures
        forall|i: int, j: int|
            0 <= i < j < chosen_columns(ranked, likeness, dedup, top_n, n).len()
                ==> #[trigger] chosen_columns(ranked, likeness, dedup, top_n, n)[i]
                != #[trigger] chosen_columns(ranked, likeness, dedup, top_n, n)[j],
    decreases n,
{
    if n > 0 {
        lemma_chosen_distinct(ranked, likeness, dedup, top_n, n - 1);
        lemma_chosen(ranked, likeness, dedup, top_n, n - 1);
        let front = chosen_columns(ranked, likeness, dedup, top_n, n - 1);
        let all = chosen_columns(ranked, likeness, dedup, top_n, n);
        assert forall|i: int, j: int| 0 <= i < j < all.len() implies #[trigger] all[i]
            != #[trigger] all[j] by {
            assert(all[i] == front[i]);
            if j < front.len() {
                assert(all[j] == front[j]);
            } else {
                let taken = ranked.take(n - 1);
                let k = choose|k: int| 0 <= k < taken.len() && taken[k] == front[i];
                assert(ranked[k] == front[i] && all[j] == ranked[n - 1]);
            }
        }
    }
}

/// A column can be a numeric driver of this table: it is a column of this
/// name, neither the metric nor the date, and fit by its name and cells.
pub open spec fn is_fit_column(
    headers: Seq<Seq<char>>,
    rows: Seq<Vec<String>>,
    metric_idx: int,
    date_idx: int,
    column: (Seq<char>, int),
) -> bool {
    &&& 0 <= column.1 < headers.len()
    &&& headers[column.1] == column.0
    &&& column.1 != metric_idx
    &&& column.1 != date_idx
    &&& can_be_driver(
        text::lower_case(column.0),
        table::filled_cells(rows, column.1, table::sample_size(rows, SAMPLED_ROWS)),
        paired(rows, column.1, metric_idx, table::sample_size(rows, SAMPLED_ROWS)),
    )
}

proof fn lemma_driver_columns(
    headers: Seq<Seq<char>>,
    rows: Seq<Vec<String>>,
    metric_idx: int,
    date_idx: int,
    n: int,
)
    requires
        0 <= n <= headers.len(),
    ensures
        driver_columns(headers, rows, metric_idx, date_idx, n).len() <= n,
        forall|i: int|
            0 <= i < driver_columns(headers, rows, metric_idx, date_idx, n).len() ==> {
                let c = #[trigger] driver_columns(headers, rows, metric_idx, date_idx, n)[i];
                is_fit_column(headers, rows, metric_idx, date_idx, c) && c.1 < n
            },
        forall|i: int, j: int|
            0 <= i < j < driver_columns(headers, rows, metric_idx, date_idx, n).len() ==> (
            #[trigger] driver_columns(headers, rows, metric_idx, date_idx, n)[i]).1 < (
            #[trigger] driver_columns(headers, rows, metric_idx, date_idx, n)[j]).1,
    decreases n,
{
    if n > 0 {
        lemma_driver_columns(headers, rows, metric_idx, date_idx, n - 1);
    }
}

/// The numeric drivers of a table are no more than asked for. Each is another
/// column, neither the metric nor the date, with a fit name and enough varied
/// numbers.
pub proof fn law_numeric_drivers_are_fit(
    headers: Seq<Seq<char>>,
    rows: Seq<Vec<String>>,
    metric_idx: int,
    date_idx: int,
    correlations: Seq<Num>,
    likeness: Seq<Vec<Num>>,
    top_n: int,
    dedup: bool,
)
    requires
        0 <= top_n,
        headers.len() <= usize::MAX,
        correlations.len() == driver_columns(
            headers,
            rows,
            metric_idx,
            date_idx,
            headers.len() as int,
        ).len(),
    ensures
        ({
            let r = numeric_drivers(
                driver_columns(headers, rows, metric_idx, date_idx, headers.len() as int),
                correlations,
                likeness,
                top_n,
                dedup,
            );
            &&& r.len() <= top_n
            &&& forall|k: int|
                0 <= k < r.len() ==> is_fit_column(
                    headers,
                    rows,
                    metric_idx,
                    date_idx,
                    #[trigger] r[k],
                )
            &&& forall|i: int, j: int|
                0 <= i < j < r.len() ==> (#[trigger] r[i]).1 != (#[trigger] r[j]).1
        }),
{
    let columns = driver_columns(headers, rows, metric_idx, date_idx, headers.len() as int);
    let ranked = ranked_columns(columns, correlations);
    let n = ranked.len() as int;
    let chosen = chosen_columns(ranked, likeness, dedup, top_n, n);
    let r = numeric_drivers(columns, correlations, likeness, top_n, dedup);
    lemma_driver_columns(headers, rows, metric_idx, date_idx, headers.len() as int);
    lemma_ranked(columns, correlations);
    lemma_chosen(ranked, likeness, dedup, top_n, n);
    lemma_chosen_distinct(ranked, likeness, dedup, top_n, n);
    assert(ranked.take(n) =~= ranked);
    assert forall|k: int| 0 <= k < chosen.len() implies 0 <= #[trigger] chosen[k]
        < columns.len() by {
        assert(ranked.take(n).contains(chosen[k]));
    }
    assert forall|k: int| 0 <= k < r.len() implies is_fit_column(
        headers,
        rows,
        metric_idx,
        date_idx,
        #[trigger] r[k],
    ) by {
        assert(r[k] == columns[chosen[k] as int]);
    }
    assert forall|i: int, j: int| 0 <= i < j < r.len() implies (#[trigger] r[i]).1 != (
    #[trigger] r[j]).1 by {
        assert(chosen[i] != chosen[j]);
        assert(r[i] == columns[chosen[i] as int] && r[j] == columns[chosen[j] as int]);
        if chosen[i] < chosen[j] {
            assert(columns[chosen[i] as int].1 < columns[chosen[j] as int].1);
        } else {
            assert(columns[chosen[j] as int].1 < columns[chosen[i] as int].1);
        }
    }
}

/// Where doubles are dropped, no chosen candidate says the same as one chosen
/// before it.
pub proof fn law_chosen_columns_differ(
    ranked: Seq<usize>,
    likeness: Seq<Vec<Num>>,
    top_n: int,
    n: int,
    i: int,
    j: int,
)
    requires
        0 <= n <= ranked.len(),
        0 <= top_n,
        0 <= j < i < chosen_columns(ranked, likeness, true, top_n, n).len(),
    ensures
        !alike(
            likeness,
            chosen_columns(ranked, likeness, true, top_n, n)[i] as int,
            chosen_columns(ranked, likeness, true, top_n, n)[j] as int,
        ),
    decreases n,
{
    if n > 0 {
        let front = chosen_columns(ranked, likeness, true, top_n, n - 1);
        let all = chosen_columns(ranked, likeness, true, top_n, n);
        if i < front.len() {
            assert(all[i] == front[i] && all[j] == front[j]);
            law_chosen_columns_differ(ranked, likeness, top_n, n - 1, i, j);
        } else {
            assert(all[j] == front[j]);
        }
    }
}

// ---------------------------------------------------------------------------
// Choosing drivers
// ---------------------------------------------------------------------------

/// The largest number of numeric drivers that are needed.
pub open spec fn numeric_limit(args: InvestigateArgs) -> int {
    let amount = if args.max_num_drivers > args.top_drivers {
        args.max_num_drivers as int
    } else {
        args.top_drivers as int
    };
    let auto = if args.auto_drivers == AutoDriversMode::NumericCorr {
        if args.top_drivers > 1 {
            args.top_drivers as int
        } else {
            1
        }
    } else {
        args.max_num_drivers as int
    };
    match args.driver_preset {
        Some(DriverPreset::Id) => 0,
        Some(DriverPreset::Category) => 0,
        Some(DriverPreset::Amount) => amount,
        Some(DriverPreset::Mixed) => auto,
        None => auto,
    }
}

/// The largest number of numeric drivers that are needed.
pub fn numeric_driver_limit(args: &InvestigateArgs) -> (r: usize)
    ensures
        r == numeric_limit(*args),
{
    let amount: usize = if args.max_num_drivers > args.top_drivers {
        args.max_num_drivers
    } else {
        args.top_drivers
    };
    let auto: usize = match args.auto_drivers {
        AutoDriversMode::NumericCorr => if args.top_drivers > 1 {
            args.top_drivers
        } else {
            1
        },
        AutoDriversMode::Deterministic => args.max_num_drivers,
    };
    match args.driver_preset {
        Some(DriverPreset::Id) => 0,
        Some(DriverPreset::Category) => 0,
        Some(DriverPreset::Amount) => amount,
        Some(DriverPreset::Mixed) => auto,
        None => auto,
    }
}

/// Columns as drivers that count their different values.
pub open spec fn counting_drivers(columns: Seq<(Seq<char>, int)>) -> Seq<DriverView> {
    columns.map_values(
        |c: (Seq<char>, int)|
            DriverView {
                label: driver_label(DriverAgg::CountDistinct, c.0),
                col_idx: Some(c.1),
                agg: DriverAgg::CountDistinct,
            },
    )
}

/// A numeric column as a driver.
pub open spec fn measuring_driver(c: (Seq<char>, int)) -> DriverView {
    DriverView {
        label: driver_label(column_agg(c.0), c.0),
        col_idx: Some(c.1),
        agg: column_agg(c.0),
    }
}

/// The numeric columns that are not in use, as drivers, among the first `n`.
pub open spec fn measuring_drivers(
    columns: Seq<(Seq<char>, int)>,
    used: Seq<usize>,
    n: int,
) -> Seq<DriverView>
    decreases n,
{
    if n <= 0 {
        Seq::empty()
    } else {
        let front = measuring_drivers(columns, used, n - 1);
        if used.contains(columns[n - 1].1 as usize) {
            front
        } else {
            front.push(measuring_driver(columns[n - 1]))
        }
    }
}

#[verifier::loop_isolation(false)]
fn add_counting(out: &mut Vec<DriverSpec>, columns: &Vec<(String, usize)>)
    ensures
        driver_views(final(out)@) == driver_views(old(out)@) + counting_drivers(
            column_views(columns@),
        ),
{
    let ghost before = driver_views(out@);
    let ghost wanted = counting_drivers(column_views(columns@));
    let mut i: usize = 0;
    assert(before + wanted.take(0) =~= before);
    while i < columns.len()
        invariant
            i <= columns.len(),
            driver_views(out@) == before + wanted.take(i as int),
        decreases columns.len() - i,
    {
        push_spec(
            out,
            DriverSpec {
                label: write_driver_label(DriverAgg::CountDistinct, columns[i].0.as_str()),
                col_idx: Some(columns[i].1),
                agg: DriverAgg::CountDistinct,
            },
        );
        assert(driver_views(out@) =~= before + wanted.take(i + 1));
        i += 1;
    }
    assert(wanted.take(wanted.len() as int) =~= wanted);
}

#[verifier::loop_isolation(false)]
fn add_measuring(out: &mut Vec<DriverSpec>, columns: &Vec<(String, usize)>, used: &Vec<usize>)
    ensures
        driver_views(final(out)@) == driver_views(old(out)@) + measuring_drivers(
            column_views(columns@),
            used@,
            columns@.len() as int,
        ),
{
    let ghost before = driver_views(out@);
    let ghost all = column_views(columns@);
    let mut i: usize = 0;
    assert(before + measuring_drivers(all, used@, 0) =~= before);
    while i < columns.len()
        invariant
            i <= columns.len(),
            driver_views(out@) == before + measuring_drivers(all, used@, i as int),
        decreases columns.len() - i,
    {
        if !holds_index(used, columns[i].1) {
            let agg = infer_numeric_driver_agg(columns[i].0.as_str());
            push_spec(
                out,
                DriverSpec {
                    label: write_driver_label(agg, columns[i].0.as_str()),
                    col_idx: Some(columns[i].1),
                    agg,
                },
            );
        }
        i += 1;
        assert(driver_views(out@) =~= before + measuring_drivers(all, used@, i as int));
    }
}

fn indices_of(columns: &Vec<(String, usize)>) -> (r: Vec<usize>)
    ensures
        r@ == columns@.map_values(|c: (String, usize)| c.1),
{
    let mut out: Vec<usize> = Vec::new();
    let mut i: usize = 0;
    while i < columns.len()
        invariant
            i <= columns.len(),
            out.len() == i,
            forall|k: int| 0 <= k < i ==> #[trigger] out@[k] == columns@[k].1,
        decreases columns.len() - i,
    {
        out.push(columns[i].1);
        i += 1;
    }
    assert(out@ =~= columns@.map_values(|c: (String, usize)| c.1));
    out
}

pub open spec fn larger_of(a: usize, b: usize) -> usize {
    if a > b {
        a
    } else {
        b
    }
}

/// The drivers are those chosen without a list: identifiers, then categories,
/// then numeric columns not yet in use; or numeric columns alone.
pub open spec fn is_auto_choice(
    out: Seq<DriverView>,
    args: InvestigateArgs,
    headers: Seq<Seq<char>>,
    rows: Seq<Vec<String>>,
    metric_idx: int,
    date_idx: int,
    numeric: Seq<(Seq<char>, int)>,
) -> bool {
    let n = headers.len() as int;
    if args.auto_drivers == AutoDriversMode::NumericCorr {
        out == measuring_drivers(numeric, Seq::empty(), numeric.len() as int)
    } else {
        exists|ids: Seq<(String, usize)>, cats: Seq<(String, usize)>| #[trigger]
            is_mixed_choice(out, args, headers, rows, metric_idx, date_idx, numeric, ids, cats)
    }
}

pub open spec fn is_mixed_choice(
    out: Seq<DriverView>,
    args: InvestigateArgs,
    headers: Seq<Seq<char>>,
    rows: Seq<Vec<String>>,
    metric_idx: int,
    date_idx: int,
    numeric: Seq<(Seq<char>, int)>,
    ids: Seq<(String, usize)>,
    cats: Seq<(String, usize)>,
) -> bool {
    let n = headers.len() as int;
    let id_cols = ids.map_values(|c: (String, usize)| c.1);
    let cat_cols = cats.map_values(|c: (String, usize)| c.1);
    &&& named_first(ids, id_columns(headers, metric_idx, date_idx, n), args.max_id_drivers)
    &&& best_rated(
        cats,
        category_columns(headers, rows, metric_idx, date_idx, id_cols, n),
        args.max_cat_drivers,
    )
    &&& out == counting_drivers(column_views(ids)) + counting_drivers(column_views(cats))
        + measuring_drivers(numeric, id_cols + cat_cols, numeric.len() as int)
}

/// Chooses drivers where none are listed. `numeric` are the numeric drivers
/// that their correlations have chosen.
pub fn auto_select_driver_specs(
    args: &InvestigateArgs,
    headers: &[String],
    rows: &Vec<Vec<String>>,
    metric_idx: usize,
    date_idx: usize,
    numeric: &Vec<(String, usize)>,
) -> (r: Vec<DriverSpec>)
    ensures
        is_auto_choice(
            driver_views(r@),
            *args,
            text::views(headers@),
            rows@,
            metric_idx as int,
            date_idx as int,
            column_views(numeric@),
        ),
{
    let mut out: Vec<DriverSpec> = Vec::new();
    assert(driver_views(out@) =~= Seq::empty());
    match args.auto_drivers {
        AutoDriversMode::NumericCorr => {
            let none: Vec<usize> = Vec::new();
            add_measuring(&mut out, numeric, &none);
            assert(none@ =~= Seq::empty());
            assert(driver_views(out@) =~= measuring_drivers(
                column_views(numeric@),
                Seq::empty(),
                numeric@.len() as int,
            ));
        },
        AutoDriversMode::Deterministic => {
            let ids = auto_select_id_like_drivers(
                headers,
                metric_idx,
                date_idx,
                args.max_id_drivers,
            );
            let mut used = indices_of(&ids);
            let cats = auto_select_categorical_drivers(
                headers,
                rows,
                metric_idx,
                date_idx,
                args.max_cat_drivers,
                &used,
            );
            let mut more = indices_of(&cats);
            used.append(&mut more);
            add_counting(&mut out, &ids);
            add_counting(&mut out, &cats);
            add_measuring(&mut out, numeric, &used);
            assert(driver_views(out@) =~= counting_drivers(column_views(ids@)) + counting_drivers(
                column_views(cats@),
            ) + measuring_drivers(column_views(numeric@), used@, numeric@.len() as int));
            assert(is_mixed_choice(
                driver_views(out@),
                *args,
                text::views(headers@),
                rows@,
                metric_idx as int,
                date_idx as int,
                column_views(numeric@),
                ids@,
                cats@,
            ));
        },
    }
    out
}

/// The drivers are those of a named choice.
pub open spec fn is_preset_choice(
    out: Seq<DriverView>,
    preset: DriverPreset,
    args: InvestigateArgs,
    headers: Seq<Seq<char>>,
    rows: Seq<Vec<String>>,
    metric_idx: int,
    date_idx: int,
    numeric: Seq<(Seq<char>, int)>,
) -> bool {
    let n = headers.len() as int;
    match preset {
        DriverPreset::Id => exists|ids: Seq<(String, usize)>|
            #![trigger column_views(ids)]
            named_first(
                ids,
                id_columns(headers, metric_idx, date_idx, n),
                larger_of(args.max_id_drivers, args.top_drivers),
            ) && out == counting_drivers(column_views(ids)),
        DriverPreset::Amount => out == measuring_drivers(
            numeric,
            Seq::empty(),
            numeric.len() as int,
        ),
        DriverPreset::Category => exists|cats: Seq<(String, usize)>|
            #![trigger column_views(cats)]
            best_rated(
                cats,
                category_columns(headers, rows, metric_idx, date_idx, Seq::empty(), n),
                larger_of(args.max_cat_drivers, args.top_drivers),
            ) && out == counting_drivers(column_views(cats)),
        DriverPreset::Mixed => is_auto_choice(
            out,
            args,
            headers,
            rows,
            metric_idx,
            date_idx,
            numeric,
        ),
    }
}

/// Chooses drivers by a named choice. `numeric` are the numeric drivers that
/// their correlations have chosen.
pub fn select_driver_specs_by_preset(
    args: &InvestigateArgs,
    preset: DriverPreset,
    headers: &[String],
    rows: &Vec<Vec<String>>,
    metric_idx: usize,
    date_idx: usize,
    numeric: &Vec<(String, usize)>,
) -> (r: Vec<DriverSpec>)
    ensures
        is_preset_choice(
            driver_views(r@),
            preset,
            *args,
            text::views(headers@),
            rows@,
            metric_idx as int,
            date_idx as int,
            column_views(numeric@),
        ),
{
    let none: Vec<usize> = Vec::new();
    assert(none@ =~= Seq::empty());
    let mut out: Vec<DriverSpec> = Vec::new();
    assert(driver_views(out@) =~= Seq::empty());
    match preset {
        DriverPreset::Id => {
            let limit: usize = if args.max_id_drivers > args.top_drivers {
                args.max_id_drivers
            } else {
                args.top_drivers
            };
            let ids = auto_select_id_like_drivers(headers, metric_idx, date_idx, limit);
            add_counting(&mut out, &ids);
            assert(driver_views(out@) =~= counting_drivers(column_views(ids@)));
        },
        DriverPreset::Amount => {
            add_measuring(&mut out, numeric, &none);
            assert(driver_views(out@) =~= measuring_drivers(
                column_views(numeric@),
                Seq::empty(),
                numeric@.len() as int,
            ));
        },
        DriverPreset::Category => {
            let limit: usize = if args.max_cat_drivers > args.top_drivers {
                args.max_cat_drivers
            } else {
                args.top_drivers
            };
            let cats = auto_select_categorical_drivers(
                headers,
                rows,
                metric_idx,
                date_idx,
                limit,
                &none,
            );
            add_counting(&mut out, &cats);
            assert(driver_views(out@) =~= counting_drivers(column_views(cats@)));
        },
        DriverPreset::Mixed => {
            return auto_select_driver_specs(args, headers, rows, metric_idx, date_idx, numeric);
        },
    }
    out
}

/// The drivers that are looked at: those that the filters leave, each of them
/// once.
pub open spec fn settled_drivers(
    specs: Seq<DriverView>,
    driver_include: Seq<Seq<char>>,
    driver_exclude: Seq<Seq<char>>,
) -> Seq<DriverView> {
    distinct_drivers(list::keep(specs, stays(driver_include, driver_exclude)))
}

/// Filters drivers, drops repeated ones, and checks that some are left.
pub fn settle_driver_specs(
    specs: Vec<DriverSpec>,
    driver_include: &[String],
    driver_exclude: &[String],
) -> (r: Result<Vec<DriverSpec>, String>)
    ensures
        ({
            let all = settled_drivers(
                driver_views(specs@),
                text::views(driver_include@),
                text::views(driver_exclude@),
            );
            match r {
                Ok(kept) => all.len() > 0 && driver_views(kept@) == all,
                Err(e) => all.len() == 0 && e@
                    == "no usable driver columns found; pass --drivers explicitly"@,
            }
        }),
{
    let kept = dedup_driver_specs(apply_driver_filters(specs, driver_include, driver_exclude));
    assert(driver_views(kept@).len() == kept@.len());
    if kept.len() == 0 {
        Err("no usable driver columns found; pass --drivers explicitly".to_owned())
    } else {
        Ok(kept)
    }
}

// ---------------------------------------------------------------------------
// Laws
// ---------------------------------------------------------------------------

/// The columns are ranked by their correlation, the highest first, and of equal
/// ones the one that comes first by name; a column is ranked exactly where its
/// correlation is a finite number.
pub proof fn law_ranked_columns_correlate_most(
    columns: Seq<(Seq<char>, int)>,
    correlations: Seq<Num>,
)
    requires
        correlations.len() == columns.len() <= usize::MAX,
    ensures
        ({
            let r = ranked_columns(columns, correlations);
            &&& forall|i: int, j: int|
                0 <= i < j < r.len() ==> ({
                    let a = correlations[#[trigger] r[i] as int].rank();
                    let b = correlations[#[trigger] r[j] as int].rank();
                    a > b || (a == b && !order::text_less(
                        columns[r[j] as int].0,
                        columns[r[i] as int].0,
                    ))
                })
            &&& forall|p: int|
                0 <= p < columns.len() ==> (r.contains(p as usize) <==> (
                #[trigger] correlations[p]).magnitude() < crate::num::INFINITE)
        }),
{
    let all = scored(correlations);
    let kept = list::keep(all, has_correlation());
    let before = stronger(columns);
    let s = order::sorted(kept, before);
    let rank = |c: Scored| c.correlation.rank();
    let name = |c: Scored| name_of(columns, c.place as int);
    let r = ranked_columns(columns, correlations);
    list::lemma_keep(all, has_correlation());
    lemma_ranked(columns, correlations);
    order::lemma_sorted_contains(kept, before);
    assert forall|c: Scored| #[trigger] kept.contains(c) implies 0 <= c.place < columns.len()
        && c.correlation == correlations[c.place as int] && c.correlation.magnitude()
        < crate::num::INFINITE by {
        let k = choose|k: int| 0 <= k < kept.len() && kept[k] == c;
        assert(all.contains(kept[k]));
        assert(has_correlation()(kept[k]));
    }
    assert forall|a: Scored, b: Scored| kept.contains(a) && kept.contains(b) implies (
    #[trigger] before(a, b) <==> rank(a) > rank(b) || (rank(a) == rank(b) && order::text_less(
        name(a),
        name(b),
    ))) by {}
    order::lemma_falls_by_name(kept, before, rank, name);
    assert forall|i: int| 0 <= i < s.len() implies kept.contains(#[trigger] s[i]) by {
        assert(s.contains(s[i]));
    }
    assert forall|i: int, j: int| 0 <= i < j < r.len() implies ({
        let a = correlations[#[trigger] r[i] as int].rank();
        let b = correlations[#[trigger] r[j] as int].rank();
        a > b || (a == b && !order::text_less(columns[r[j] as int].0, columns[r[i] as int].0))
    }) by {
        assert(kept.contains(s[i]) && kept.contains(s[j]));
        assert(r[i] == s[i].place && r[j] == s[j].place);
    }
    assert forall|p: int| 0 <= p < columns.len() implies (r.contains(p as usize) <==> (
    #[trigger] correlations[p]).magnitude() < crate::num::INFINITE) by {
        if r.contains(p as usize) {
            let k = choose|k: int| 0 <= k < r.len() && r[k] == p as usize;
            assert(kept.contains(s[k]));
            assert(r[k] == s[k].place);
        }
        if correlations[p].magnitude() < crate::num::INFINITE {
            assert(all[p] == (Scored { place: p as usize, correlation: correlations[p] }));
            assert(all.contains(all[p]));
            assert(has_correlation()(all[p]));
            assert(kept.contains(all[p]));
            assert(s.contains(all[p]));
            let k = choose|k: int| 0 <= k < s.len() && s[k] == all[p];
            assert(r[k] == p as usize);
        }
    }
}

/// A ranked column is passed over only where enough columns are chosen or where
/// it is alike to a chosen one; without that comparison the first columns are
/// chosen as they are ranked.
pub proof fn law_columns_are_chosen_in_their_rank(
    ranked: Seq<usize>,
    likeness: Seq<Vec<Num>>,
    dedup: bool,
    top_n: int,
    n: int,
)
    requires
        0 <= n <= ranked.len(),
        0 <= top_n,
    ensures
        !dedup ==> chosen_columns(ranked, likeness, dedup, top_n, n) == ranked.take(
            if n < top_n {
                n
            } else {
                top_n
            },
        ),
        chosen_columns(ranked, likeness, dedup, top_n, n).len() <= top_n,
        chosen_columns(ranked, likeness, dedup, top_n, n).len() < top_n ==> forall|i: int|
            0 <= i < n ==> chosen_columns(ranked, likeness, dedup, top_n, n).contains(
                #[trigger] ranked[i],
            ) || (dedup && has_alike(
                chosen_columns(ranked, likeness, dedup, top_n, n),
                likeness,
                ranked[i] as int,
            )),
    decreases n,
{
    if n > 0 {
        law_columns_are_chosen_in_their_rank(ranked, likeness, dedup, top_n, n - 1);
        let front = chosen_columns(ranked, likeness, dedup, top_n, n - 1);
        let all = chosen_columns(ranked, likeness, dedup, top_n, n);
        assert forall|k: int| 0 <= k < front.len() implies #[trigger] all[k] == front[k] by {}
        if all.len() < top_n {
            assert forall|i: int| 0 <= i < n implies all.contains(#[trigger] ranked[i]) || (dedup
                && has_alike(all, likeness, ranked[i] as int)) by {
                if i < n - 1 {
                    if front.contains(ranked[i]) {
                        let k = choose|k: int| 0 <= k < front.len() && front[k] == ranked[i];
                        assert(all[k] == ranked[i]);
                    } else {
                        assert(has_alike(front, likeness, ranked[i] as int));
                        let k = choose|k: int|
                            0 <= k < front.len() && alike(
                                likeness,
                                ranked[i] as int,
                                #[trigger] front[k] as int,
                            );
                        assert(alike(likeness, ranked[i] as int, all[k] as int));
                    }
                } else if all.len() > front.len() {
                    assert(all[all.len() - 1] == ranked[i]);
                } else {
                    assert(has_alike(all, likeness, ranked[i] as int));
                }
            }
        }
    } else {
        assert(ranked.take(0) =~= Seq::empty());
    }
}

/// A column is alike to one of those that are chosen.
pub open spec fn has_alike(chosen: Seq<usize>, likeness: Seq<Vec<Num>>, column: int) -> bool {
    exists|k: int|
        0 <= k < chosen.len() && alike(likeness, column, #[trigger] chosen[k] as int)
}

/// The columns taken as identifiers bear a name that is `id` or ends in `_id`
/// or `_uuid` and are neither the metric nor the date; and every such column
/// whose name does not end in `_uuid` is taken.
pub proof fn law_identifier_columns_are_named_so(
    headers: Seq<Seq<char>>,
    metric_idx: int,
    date_idx: int,
    n: int,
)
    requires
        0 <= n <= headers.len(),
    ensures
        forall|k: int|
            0 <= k < id_columns(headers, metric_idx, date_idx, n).len() ==> ({
                let c = #[trigger] id_columns(headers, metric_idx, date_idx, n)[k];
                let low = text::lower(c.0);
                &&& 0 <= c.1 < n && headers[c.1] == c.0
                &&& c.1 != metric_idx && c.1 != date_idx
                &&& low == "id"@ || scan::ends_with(low, "_id"@) || scan::ends_with(low, "_uuid"@)
            }),
        forall|i: int|
            0 <= i < n && i != metric_idx && i != date_idx && !scan::ends_with(
                text::lower(#[trigger] headers[i]),
                "_uuid"@,
            ) && (text::lower(headers[i]) == "id"@ || scan::ends_with(
                text::lower(headers[i]),
                "_id"@,
            )) ==> id_columns(headers, metric_idx, date_idx, n).contains((headers[i], i)),
    decreases n,
{
    if n > 0 {
        law_identifier_columns_are_named_so(headers, metric_idx, date_idx, n - 1);
        let front = id_columns(headers, metric_idx, date_idx, n - 1);
        let all = id_columns(headers, metric_idx, date_idx, n);
        assert forall|k: int| 0 <= k < front.len() implies #[trigger] all[k] == front[k] by {}
        assert forall|i: int|
            0 <= i < n && i != metric_idx && i != date_idx && !scan::ends_with(
                text::lower(#[trigger] headers[i]),
                "_uuid"@,
            ) && (text::lower(headers[i]) == "id"@ || scan::ends_with(
                text::lower(headers[i]),
                "_id"@,
            )) implies all.contains((headers[i], i)) by {
            if i < n - 1 {
                assert(front.contains((headers[i], i)));
                let k = choose|k: int| 0 <= k < front.len() && front[k] == (headers[i], i);
                assert(all[k] == (headers[i], i));
            } else {
                assert(all[all.len() - 1] == (headers[i], i));
            }
        }
    }
}

/// A column that names an identifier twice, once as `_uuid` beside an `_id` of
/// the same name, is left out.
pub proof fn law_doubled_identifiers_are_left_out(
    headers: Seq<Seq<char>>,
    stem: Seq<char>,
    i: int,
    j: int,
    metric_idx: int,
    date_idx: int,
    n: int,
)
    requires
        0 <= n <= headers.len(),
        0 <= i < headers.len(),
        0 <= j < headers.len(),
        !scan::ends_with(stem, "_uuid"@),
        text::lower(headers[i]) == stem + "_uuid"@,
        text::lower(headers[j]) == stem + "_id"@,
    ensures
        !id_columns(headers, metric_idx, date_idx, n).contains((headers[i], i)),
{
    let low = text::lower(headers[i]);
    reveal_strlit("_uuid");
    assert(low.subrange(stem.len() as int, low.len() as int) =~= "_uuid"@);
    assert(scan::ends_with(low, "_uuid"@));
    assert(low.take(low.len() - 5) =~= stem);
    assert(without_endings(stem, "_uuid"@) == stem);
    assert(without_endings(low, "_uuid"@) == stem);
    assert(lowered(headers)[j] == stem + "_id"@);
    assert(!is_id_name(headers[i], headers));
    lemma_id_columns_are_id_names(headers, metric_idx, date_idx, n);
    let all = id_columns(headers, metric_idx, date_idx, n);
    if all.contains((headers[i], i)) {
        let k = choose|k: int| 0 <= k < all.len() && all[k] == (headers[i], i);
        assert(is_id_name(all[k].0, headers));
    }
}

proof fn lemma_id_columns_are_id_names(
    headers: Seq<Seq<char>>,
    metric_idx: int,
    date_idx: int,
    n: int,
)
    requires
        0 <= n <= headers.len(),
    ensures
        forall|k: int|
            0 <= k < id_columns(headers, metric_idx, date_idx, n).len() ==> is_id_name(
                (#[trigger] id_columns(headers, metric_idx, date_idx, n)[k]).0,
                headers,
            ),
    decreases n,
{
    if n > 0 {
        lemma_id_columns_are_id_names(headers, metric_idx, date_idx, n - 1);
        let front = id_columns(headers, metric_idx, date_idx, n - 1);
        let all = id_columns(headers, metric_idx, date_idx, n);
        assert forall|k: int| 0 <= k < front.len() implies #[trigger] all[k] == front[k] by {}
    }
}

/// The columns taken first are in the order of their names, and no column left
/// out comes before one of them by name.
pub proof fn law_first_names_are_taken(
    out: Seq<(String, usize)>,
    columns: Seq<(Seq<char>, int)>,
    max_n: usize,
)
    requires
        named_first(out, columns, max_n),
    ensures
        out.len() == (if columns.len() < max_n {
            columns.len() as int
        } else {
            max_n as int
        }),
        forall|i: int, j: int|
            0 <= i < j < out.len() ==> !order::text_less((#[trigger] out[j]).0@, (
            #[trigger] out[i]).0@),
        forall|i: int|
            0 <= i < out.len() ==> columns.contains(((#[trigger] out[i]).0@, out[i].1 as int)),
        forall|i: int, k: int|
            0 <= i < out.len() && 0 <= k < columns.len() && !column_views(out).contains(
                #[trigger] columns[k],
            ) ==> !order::text_less(columns[k].0, (#[trigger] out[i]).0@),
{
    let all = choose|all: Seq<(String, usize)>|
        #[trigger] column_views(all) == columns && out == crate::answers::at_most(
            order::sorted(all, name_order()),
            max_n as int,
        );
    let before = name_order();
    let s = order::sorted(all, before);
    order::lemma_sorted_permutation(all, before);
    order::lemma_sorted_contains(all, before);
    assert forall|a: (String, usize), b: (String, usize)| #[trigger]
        before(a, b) implies !before(b, a) by {
        order::lemma_text_less_total(a.0@, b.0@, a.0@);
    }
    assert forall|a: (String, usize), b: (String, usize), c: (String, usize)|
        !(#[trigger] before(a, b)) && !(#[trigger] before(b, c)) implies !before(a, c) by {
        order::lemma_text_less_total(a.0@, b.0@, c.0@);
        order::lemma_text_less_total(b.0@, c.0@, a.0@);
        order::lemma_text_less_total(a.0@, c.0@, b.0@);
        order::lemma_text_less_total(c.0@, b.0@, a.0@);
    }
    order::lemma_sorted_in_order(all, before);
    assert forall|i: int, j: int| 0 <= i < j < out.len() implies !order::text_less(
        (#[trigger] out[j]).0@,
        (#[trigger] out[i]).0@,
    ) by {
        assert(!before(s[j], s[i]));
    }
    assert forall|i: int| 0 <= i < out.len() implies columns.contains(
        ((#[trigger] out[i]).0@, out[i].1 as int),
    ) by {
        assert(s.contains(s[i]));
        assert(all.contains(s[i]));
        let k = choose|k: int| 0 <= k < all.len() && all[k] == s[i];
        assert(columns[k] == (out[i].0@, out[i].1 as int));
    }
    assert forall|i: int, k: int|
        0 <= i < out.len() && 0 <= k < columns.len() && !column_views(out).contains(
            #[trigger] columns[k],
        ) implies !order::text_less(columns[k].0, (#[trigger] out[i]).0@) by {
        assert(all.contains(all[k]));
        assert(s.contains(all[k]));
        let m = choose|m: int| 0 <= m < s.len() && s[m] == all[k];
        if m < out.len() {
            assert(column_views(out)[m] == columns[k]);
        }
        assert(!before(s[m], s[i]));
    }
}

/// The columns taken by their rating have the highest scores, the highest first,
/// and of equal scores the first names; no column left out scores higher than
/// one that is taken.
pub proof fn law_best_rated_columns_are_taken(
    out: Seq<(String, usize)>,
    columns: Seq<(Seq<char>, int, int)>,
    max_n: usize,
)
    requires
        best_rated(out, columns, max_n),
    ensures
        out.len() == (if columns.len() < max_n {
            columns.len() as int
        } else {
            max_n as int
        }),
        exists|scores: Seq<int>|
            scores.len() == out.len() && #[trigger] is_taken_by_scores(out, columns, scores),
{
    let all = choose|all: Seq<RatedColumn>|
        #[trigger] rated_views(all) == columns && column_views(out) == crate::answers::at_most(
            order::sorted(all, rating_order()).map_values(
                |c: RatedColumn| (c.name@, c.idx as int),
            ),
            max_n as int,
        );
    let before = rating_order();
    let s = order::sorted(all, before);
    let rank = |c: RatedColumn| c.score as int;
    let name = |c: RatedColumn| c.name@;
    order::lemma_sorted_permutation(all, before);
    order::lemma_sorted_contains(all, before);
    order::lemma_falls_by_name(all, before, rank, name);
    assert(column_views(out).len() == out.len());
    let scores = Seq::new(out.len(), |i: int| s[i].score as int);
    assert forall|i: int| 0 <= i < out.len() implies (#[trigger] out[i]).0@ == s[i].name@
        && out[i].1 == s[i].idx && columns.contains((out[i].0@, out[i].1 as int, scores[i])) by {
        assert(column_views(out)[i] == (s[i].name@, s[i].idx as int));
        assert(s.contains(s[i]));
        assert(all.contains(s[i]));
        let k = choose|k: int| 0 <= k < all.len() && all[k] == s[i];
        assert(columns[k] == (out[i].0@, out[i].1 as int, scores[i]));
    }
    assert forall|i: int, j: int| 0 <= i < j < out.len() implies (#[trigger] scores[i] > (
    #[trigger] scores[j]) || (scores[i] == scores[j] && !order::text_less(
        out[j].0@,
        out[i].0@,
    ))) by {
        assert(rank(s[i]) > rank(s[j]) || (rank(s[i]) == rank(s[j]) && !order::text_less(
            name(s[j]),
            name(s[i]),
        )));
        assert(out[i].0@ == s[i].name@ && out[j].0@ == s[j].name@);
    }
    assert forall|i: int, k: int|
        0 <= i < out.len() && 0 <= k < columns.len() && !column_views(out).contains(
            ((#[trigger] columns[k]).0, columns[k].1),
        ) implies columns[k].2 <= #[trigger] scores[i] by {
        assert(all.contains(all[k]));
        assert(s.contains(all[k]));
        let m = choose|m: int| 0 <= m < s.len() && s[m] == all[k];
        if m < out.len() {
            assert(column_views(out)[m] == (columns[k].0, columns[k].1));
        }
        assert(rank(s[i]) >= rank(s[m]));
    }
    assert(is_taken_by_scores(out, columns, scores));
}

/// The columns were taken by these scores.
pub open spec fn is_taken_by_scores(
    out: Seq<(String, usize)>,
    columns: Seq<(Seq<char>, int, int)>,
    scores: Seq<int>,
) -> bool {
    &&& forall|i: int|
        0 <= i < out.len() ==> columns.contains(
            ((#[trigger] out[i]).0@, out[i].1 as int, scores[i]),
        )
    &&& forall|i: int, j: int|
        0 <= i < j < out.len() ==> (#[trigger] scores[i] > (#[trigger] scores[j]) || (scores[i]
            == scores[j] && !order::text_less(out[j].0@, out[i].0@)))
    &&& forall|i: int, k: int|
        0 <= i < out.len() && 0 <= k < columns.len() && !column_views(out).contains(
            ((#[trigger] columns[k]).0, columns[k].1),
        ) ==> columns[k].2 <= #[trigger] scores[i]
}

/// A column taken as a category is neither the metric nor the date nor one that
/// is used already; its name speaks of no date or time; it has at least twenty
/// filled cells, of which fewer than four in five are numbers, and among them at
/// least two words and at most seven for every twenty cells.
pub proof fn law_categories_have_few_words(
    headers: Seq<Seq<char>>,
    rows: Seq<Vec<String>>,
    metric_idx: int,
    date_idx: int,
    used: Seq<usize>,
    n: int,
    i: int,
)
    requires
        0 <= i < n <= headers.len() <= usize::MAX,
    ensures
        ({
            let cells = table::filled_cells(rows, i, table::sample_size(rows, SAMPLED_ROWS));
            let words = list::distinct_by(
                cells.map_values(|c: Seq<char>| text::lower(c)),
                |k: Seq<char>| k,
            ).len();
            has_category(category_columns(headers, rows, metric_idx, date_idx, used, n), i)
                <==> i != metric_idx && i != date_idx && !used.contains(i as usize)
                && !scan::contains(text::lower(headers[i]), "date"@) && !scan::contains(
                text::lower(headers[i]),
                "time"@,
            ) && cells.len() >= 20 && 5 * table::numeric_cells(cells).len() < 4 * cells.len()
                && words >= 2 && 20 * words <= 7 * cells.len()
        }),
    decreases n,
{
    let front = category_columns(headers, rows, metric_idx, date_idx, used, n - 1);
    let all = category_columns(headers, rows, metric_idx, date_idx, used, n);
    let cells = table::filled_cells(rows, i, table::sample_size(rows, SAMPLED_ROWS));
    assert(lowered(cells) =~= cells.map_values(|c: Seq<char>| text::lower(c)));
    assert forall|k: int| 0 <= k < front.len() implies #[trigger] all[k] == front[k] by {}
    lemma_category_places(headers, rows, metric_idx, date_idx, used, n - 1);
    if i < n - 1 {
        law_categories_have_few_words(headers, rows, metric_idx, date_idx, used, n - 1, i);
        if has_category(front, i) {
            let k = choose|k: int| 0 <= k < front.len() && (#[trigger] front[k]).1 == i;
            assert(all[k].1 == i);
        }
        if has_category(all, i) {
            let k = choose|k: int| 0 <= k < all.len() && (#[trigger] all[k]).1 == i;
            assert(k < front.len());
            assert(front[k].1 == i);
        }
    } else {
        if has_category(all, i) {
            let k = choose|k: int| 0 <= k < all.len() && (#[trigger] all[k]).1 == i;
            if k < front.len() {
                assert(front[k].1 == i);
            }
        } else if all.len() > front.len() {
            assert(all[all.len() - 1].1 == i);
        }
    }
}

/// A column is among the categories.
pub open spec fn has_category(columns: Seq<(Seq<char>, int, int)>, i: int) -> bool {
    exists|k: int| 0 <= k < columns.len() && (#[trigger] columns[k]).1 == i
}

proof fn lemma_category_places(
    headers: Seq<Seq<char>>,
    rows: Seq<Vec<String>>,
    metric_idx: int,
    date_idx: int,
    used: Seq<usize>,
    n: int,
)
    requires
        0 <= n,
    ensures
        forall|k: int|
            0 <= k < category_columns(headers, rows, metric_idx, date_idx, used, n).len() ==> 0 <= (
            #[trigger] category_columns(headers, rows, metric_idx, date_idx, used, n)[k]).1 < n,
    decreases n,
{
    if n > 0 {
        lemma_category_places(headers, rows, metric_idx, date_idx, used, n - 1);
        let front = category_columns(headers, rows, metric_idx, date_idx, used, n - 1);
        let all = category_columns(headers, rows, metric_idx, date_idx, used, n);
        assert forall|k: int| 0 <= k < all.len() implies 0 <= (#[trigger] all[k]).1 < n by {
            if k < front.len() {
                assert(all[k] == front[k]);
            }
        }
    }
}

/// A numeric driver is chosen among columns that have at least twenty filled
/// cells with more than three words, at least three in five of them numbers, at
/// least twenty of them beside a number of the metric, and whose name is neither
/// that of an identifier, a date, a time, a count nor a person or place.
pub proof fn law_numeric_drivers_have_many_numbers(
    headers: Seq<Seq<char>>,
    rows: Seq<Vec<String>>,
    metric_idx: int,
    date_idx: int,
    column: (Seq<char>, int),
)
    requires
        is_fit_column(headers, rows, metric_idx, date_idx, column),
    ensures
        ({
            let size = table::sample_size(rows, SAMPLED_ROWS);
            let cells = table::filled_cells(rows, column.1, size);
            let low = text::lower_case(column.0);
            let words = list::distinct_by(
                cells.map_values(|c: Seq<char>| text::lower(c)),
                |k: Seq<char>| k,
            ).len();
            &&& column.1 != metric_idx && column.1 != date_idx
            &&& cells.len() >= 20
            &&& words > 3
            &&& 5 * table::numeric_cells(cells).len() >= 3 * cells.len()
            &&& paired(rows, column.1, metric_idx, size) >= 20
            &&& low != "id"@ && !scan::ends_with(low, "_id"@)
            &&& !scan::contains(low, "date"@) && !scan::contains(low, "time"@)
        }),
{
    let cells = table::filled_cells(rows, column.1, table::sample_size(rows, SAMPLED_ROWS));
    assert(lowered(cells) =~= cells.map_values(|c: Seq<char>| text::lower(c)));
}

/// A driver is left out exactly where its label, or the column inside it, is
/// listed among the unwanted or, if any are wanted, is not listed among those;
/// names are compared without regard to case and surrounding space.
pub proof fn law_unwanted_drivers_are_left_out(
    specs: Seq<DriverView>,
    wanted: Seq<Seq<char>>,
    unwanted: Seq<Seq<char>>,
    d: DriverView,
    i: int,
)
    requires
        specs.contains(d),
        0 <= i < unwanted.len(),
        text::lower(text::trim(unwanted[i])) == text::lower(d.label),
        text::lower(d.label).len() > 0,
    ensures
        !list::keep(specs, stays(wanted, unwanted)).contains(d),
{
    lemma_tidy_names(unwanted);
    list::lemma_keep(specs, stays(wanted, unwanted));
    let kept = list::keep(specs, stays(wanted, unwanted));
    assert(tidy_names(unwanted).contains(text::lower(text::trim(unwanted[i]))));
    if kept.contains(d) {
        let k = choose|k: int| 0 <= k < kept.len() && kept[k] == d;
        assert(stays(wanted, unwanted)(kept[k]));
    }
}

/// Without a list of wanted and of unwanted drivers all stay, and with a list of
/// wanted ones a driver whose label is on it stays, unless it is unwanted.
pub proof fn law_wanted_drivers_stay(
    specs: Seq<DriverView>,
    wanted: Seq<Seq<char>>,
    d: DriverView,
)
    requires
        specs.contains(d),
        text::lower(d.label).len() > 0,
        wanted.len() == 0 || exists|i: int|
            0 <= i < wanted.len() && text::lower(text::trim(#[trigger] wanted[i])) == text::lower(
                d.label,
            ),
    ensures
        list::keep(specs, stays(wanted, Seq::empty())).contains(d),
{
    lemma_tidy_names(wanted);
    list::lemma_keep(specs, stays(wanted, Seq::empty()));
    assert(tidy_names(Seq::empty()) =~= Seq::<Seq<char>>::empty());
    if wanted.len() > 0 {
        let i = choose|i: int|
            0 <= i < wanted.len() && text::lower(text::trim(#[trigger] wanted[i])) == text::lower(
                d.label,
            );
        assert(tidy_names(wanted).contains(text::lower(text::trim(wanted[i]))));
    } else {
        assert(tidy_names(wanted).len() == 0);
    }
    assert(!is_listed(d.label, tidy_names(Seq::empty())));
    assert(stays(wanted, Seq::empty())(d));
}

proof fn lemma_tidy_names(names: Seq<Seq<char>>)
    ensures
        forall|i: int|
            0 <= i < names.len() && text::lower(text::trim(#[trigger] names[i])).len() > 0
                ==> tidy_names(names).contains(text::lower(text::trim(names[i]))),
    decreases names.len(),
{
    if names.len() > 0 {
        lemma_tidy_names(names.drop_last());
        let front = tidy_names(names.drop_last());
        let all = tidy_names(names);
        assert forall|i: int|
            0 <= i < names.len() && text::lower(
                text::trim(#[trigger] names[i]),
            ).len() > 0 implies all.contains(text::lower(text::trim(names[i]))) by {
            let x = text::lower(text::trim(names[i]));
            if i < names.len() - 1 {
                assert(names.drop_last()[i] == names[i]);
                assert(front.contains(x));
                let k = choose|k: int| 0 <= k < front.len() && front[k] == x;
                assert(all[k] == x);
            } else {
                assert(all[all.len() - 1] == x);
            }
        }
    }
}

/// A text in the form of a call is read as its name and what stands between the
/// first opening and the closing bracket.
pub proof fn law_calls_are_read_as_name_and_argument(name: Seq<char>, arg: Seq<char>)
    requires
        name.len() > 0,
        !scan::contains(name, "("@),
        text::lower(text::trim(name)).len() > 0,
    ensures
        call_parts(name + "("@ + arg + ")"@) == Some((text::lower(text::trim(name)), text::trim(arg))),
{
    let raw = name + "("@ + arg + ")"@;
    let at = name.len() as int;
    reveal_strlit("(");
    reveal_strlit(")");
    assert(raw.subrange(at, at + 1) =~= "("@);
    assert(scan::occurs_at(raw, "("@, at));
    scan::lemma_find_from(raw, "("@, 0);
    match scan::find(raw, "("@) {
        None => {
            assert(false);
        },
        Some(k) => {
            if k < at {
                assert(name.subrange(k, k + 1) =~= raw.subrange(k, k + 1));
                assert(scan::occurs_at(name, "("@, k));
            }
            assert(k == at);
        },
    }
    assert(raw.subrange(raw.len() - 1, raw.len() as int) =~= ")"@);
    assert(raw.take(at) =~= name);
    assert(raw.subrange(at + 1, raw.len() - 1) =~= arg);
}

/// What is counted or measured of the chosen columns: each numeric column that
/// is not used otherwise is measured, by its own name and place.
pub proof fn law_unused_columns_are_measured(
    columns: Seq<(Seq<char>, int)>,
    used: Seq<usize>,
    n: int,
)
    requires
        0 <= n <= columns.len(),
    ensures
        forall|k: int|
            0 <= k < measuring_drivers(columns, used, n).len() ==> ({
                let d = #[trigger] measuring_drivers(columns, used, n)[k];
                &&& d.agg == DriverAgg::Sum || d.agg == DriverAgg::Mean
                &&& d.col_idx is Some && !used.contains(d.col_idx->0 as usize)
                &&& exists|i: int|
                    0 <= i < n && (#[trigger] columns[i]).1 == d.col_idx->0 && d.label == (if d.agg
                        == DriverAgg::Mean {
                        "avg("@
                    } else {
                        "sum("@
                    }) + columns[i].0 + ")"@
            }),
        forall|i: int|
            0 <= i < n && !used.contains((#[trigger] columns[i]).1 as usize) ==> measures(
                measuring_drivers(columns, used, n),
                columns[i].1,
            ),
    decreases n,
{
    if n > 0 {
        law_unused_columns_are_measured(columns, used, n - 1);
        let front = measuring_drivers(columns, used, n - 1);
        let all = measuring_drivers(columns, used, n);
        assert forall|k: int| 0 <= k < all.len() implies ({
            let d = #[trigger] all[k];
            &&& d.agg == DriverAgg::Sum || d.agg == DriverAgg::Mean
            &&& d.col_idx is Some && !used.contains(d.col_idx->0 as usize)
            &&& exists|i: int|
                0 <= i < n && (#[trigger] columns[i]).1 == d.col_idx->0 && d.label == (if d.agg
                    == DriverAgg::Mean {
                    "avg("@
                } else {
                    "sum("@
                }) + columns[i].0 + ")"@
        }) by {
            let d = all[k];
            if k < front.len() {
                assert(d == front[k]);
                let i = choose|i: int|
                    0 <= i < n - 1 && (#[trigger] columns[i]).1 == d.col_idx->0 && d.label == (
                    if d.agg == DriverAgg::Mean {
                        "avg("@
                    } else {
                        "sum("@
                    }) + columns[i].0 + ")"@;
                assert(columns[i].1 == d.col_idx->0);
            } else {
                assert(columns[n - 1].1 == d.col_idx->0);
            }
        }
        assert forall|i: int|
            0 <= i < n && !used.contains((#[trigger] columns[i]).1 as usize) implies measures(
            all,
            columns[i].1,
        ) by {
            if i < n - 1 {
                assert(measures(front, columns[i].1));
                let k = choose|k: int|
                    0 <= k < front.len() && (#[trigger] front[k]).col_idx == Some(columns[i].1);
                assert(all[k] == front[k]);
            } else {
                assert(all[all.len() - 1].col_idx == Some(columns[i].1));
            }
        }
    }
}

/// A driver stands for a column.
pub open spec fn measures(drivers: Seq<DriverView>, column: int) -> bool {
    exists|k: int| 0 <= k < drivers.len() && (#[trigger] drivers[k]).col_idx == Some(column)
}

/// As many numeric drivers are chosen as the preset asks for: none for a preset
/// of identifiers or categories, and for amounts as many as the larger of the
/// two limits.
pub proof fn law_presets_limit_the_numeric_drivers(args: InvestigateArgs)
    ensures
        args.driver_preset == Some(DriverPreset::Id) || args.driver_preset == Some(
            DriverPreset::Category,
        ) ==> numeric_limit(args) == 0,
        args.driver_preset == Some(DriverPreset::Amount) ==> numeric_limit(args)
            >= args.max_num_drivers && numeric_limit(args) >= args.top_drivers && (numeric_limit(
            args,
        ) == args.max_num_drivers || numeric_limit(args) == args.top_drivers),
        (args.driver_preset is None || args.driver_preset == Some(DriverPreset::Mixed))
            && args.auto_drivers != AutoDriversMode::NumericCorr ==> numeric_limit(args)
            == args.max_num_drivers,
        (args.driver_preset is None || args.driver_preset == Some(DriverPreset::Mixed))
            && args.auto_drivers == AutoDriversMode::NumericCorr ==> numeric_limit(args) >= 1 && (
        args.top_drivers >= 1 ==> numeric_limit(args) == args.top_drivers),
{
}

/// A preset chooses drivers of its own kind: identifiers and categories are
/// counted by their distinct values, amounts are summed or averaged.
pub proof fn law_presets_choose_drivers_of_their_kind(
    out: Seq<DriverView>,
    preset: DriverPreset,
    args: InvestigateArgs,
    headers: Seq<Seq<char>>,
    rows: Seq<Vec<String>>,
    metric_idx: int,
    date_idx: int,
    numeric: Seq<(Seq<char>, int)>,
    k: int,
)
    requires
        is_preset_choice(out, preset, args, headers, rows, metric_idx, date_idx, numeric),
        0 <= k < out.len(),
    ensures
        preset == DriverPreset::Id || preset == DriverPreset::Category ==> out[k].agg
            == DriverAgg::CountDistinct && out[k].col_idx is Some,
        preset == DriverPreset::Amount ==> (out[k].agg == DriverAgg::Sum || out[k].agg
            == DriverAgg::Mean) && out[k].col_idx is Some,
{
    law_unused_columns_are_measured(numeric, Seq::empty(), numeric.len() as int);
}

/// A counted column is told by its own name and place.
pub proof fn law_counted_columns_keep_their_place(columns: Seq<(Seq<char>, int)>, i: int)
    requires
        0 <= i < columns.len(),
    ensures
        counting_drivers(columns).len() == columns.len(),
        counting_drivers(columns)[i].col_idx == Some(columns[i].1),
        counting_drivers(columns)[i].label == "count_distinct("@ + columns[i].0 + ")"@,
        counting_drivers(columns)[i].agg == DriverAgg::CountDistinct,
{
}

/// The drivers that are left after the lists of wanted and unwanted ones are some
/// of those chosen, no two with one label, and none of them is unwanted.
pub proof fn law_settled_drivers_are_wanted(
    specs: Seq<DriverView>,
    wanted: Seq<Seq<char>>,
    unwanted: Seq<Seq<char>>,
    k: int,
)
    requires
        0 <= k < settled_drivers(specs, wanted, unwanted).len(),
    ensures
        ({
            let d = settled_drivers(specs, wanted, unwanted)[k];
            &&& specs.contains(d)
            &&& forall|i: int|
                0 <= i < unwanted.len() && text::lower(text::trim(#[trigger] unwanted[i])).len() > 0
                    ==> text::lower(text::trim(unwanted[i])) != text::lower(d.label)
            &&& forall|j: int|
                0 <= j < settled_drivers(specs, wanted, unwanted).len() && j != k ==> (
                #[trigger] settled_drivers(specs, wanted, unwanted)[j]).label != d.label
        }),
{
    let kept = list::keep(specs, stays(wanted, unwanted));
    let all = settled_drivers(specs, wanted, unwanted);
    let label = |d: DriverView| d.label;
    list::lemma_keep(specs, stays(wanted, unwanted));
    list::lemma_distinct_by(kept, label);
    lemma_tidy_names(unwanted);
    let d = all[k];
    assert(kept.contains(d));
    let m = choose|m: int| 0 <= m < kept.len() && kept[m] == d;
    assert(stays(wanted, unwanted)(kept[m]));
    assert(specs.contains(kept[m]));
    assert forall|j: int| 0 <= j < all.len() && j != k implies (#[trigger] all[j]).label
        != d.label by {
        if j < k {
            assert(label(all[j]) != label(all[k]));
        } else {
            assert(label(all[k]) != label(all[j]));
        }
    }
}

} // verus!
