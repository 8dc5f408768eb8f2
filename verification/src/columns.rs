//! The columns of a table that a request means.

use vstd::prelude::*;

use crate::list;
use crate::table;
use crate::table::{auto_detect_date_column, column_index, resolve_group_name};
use crate::text;

verus! {

/// A column of a table: its name and its place.
#[derive(Clone, Debug)]
pub struct NamedColumn {
    pub name: String,
    pub idx: usize,
}

impl View for NamedColumn {
    type V = (Seq<char>, int);

    open spec fn view(&self) -> (Seq<char>, int) {
        (self.name@, self.idx as int)
    }
}

/// A search for a column in views.
pub open spec fn column_result(r: Result<NamedColumn, String>) -> Result<(Seq<char>, int), Seq<char>> {
    match r {
        Ok(c) => Ok(c@),
        Err(e) => Err(e@),
    }
}

/// A column with its name and the place of the first column of that name.
pub open spec fn placed_column(headers: Seq<Seq<char>>, name: Seq<char>) -> (Seq<char>, int) {
    (name, list::first_from(headers, table::equals(name), 0)->0)
}

/// The column that a name means.
pub open spec fn meant_column(headers: Seq<Seq<char>>, name: Seq<char>) -> Result<
    (Seq<char>, int),
    Seq<char>,
> {
    match table::column_named(headers, name) {
        Some(c) => Ok(placed_column(headers, c)),
        None => Err(table::no_group_column(name)),
    }
}

/// A name that is among the headers is found there.
proof fn lemma_placed(headers: Seq<Seq<char>>, name: Seq<char>, k: int)
    requires
        0 <= k < headers.len(),
        headers[k] == name,
    ensures
        list::first_from(headers, table::equals(name), 0) is Some,
{
    list::lemma_first_from(headers, table::equals(name), 0);
    if list::first_from(headers, table::equals(name), 0) is None {
        assert(!table::equals(name)(headers[k]));
    }
}

/// Finds the column that a name means.
pub fn find_column(headers: &[String], name: &str) -> (r: Result<NamedColumn, String>)
    ensures
        column_result(r) == meant_column(text::views(headers@), name@),
        match r {
            Ok(c) => c.idx < headers.len(),
            Err(_) => true,
        },
{
    let ghost hs = text::views(headers@);
    match resolve_group_name(name, headers) {
        Ok(found) => {
            proof {
                let k = choose|k: int| 0 <= k < hs.len() && hs[k] == found@;
                lemma_placed(hs, found@, k);
            }
            match column_index(headers, found.as_str()) {
                Some(idx) => Ok(NamedColumn { name: found, idx }),
                None => Err(String::new()),
            }
        },
        Err(e) => Err(e),
    }
}

/// A search for a date column in views.
pub open spec fn date_result(r: Option<Result<NamedColumn, String>>) -> Option<
    Result<(Seq<char>, int), Seq<char>>,
> {
    match r {
        Some(c) => Some(column_result(c)),
        None => None,
    }
}

/// The date column: the one that is named, or else the one that looks most
/// like one. The search ends in `missing` where there is none, and in `None`
/// where a cell of the table keeps it from an answer.
pub open spec fn date_column(
    headers: Seq<Seq<char>>,
    rows: Seq<Vec<String>>,
    named: Option<Seq<char>>,
    missing: Seq<char>,
) -> Option<Result<(Seq<char>, int), Seq<char>>> {
    match named {
        Some(name) => Some(meant_column(headers, name)),
        None => if table::date_cells_blocked(rows, headers, headers.len() as int) {
            None
        } else {
            match table::best_date_column(rows, headers, headers.len() as int) {
                Some(i) => Some(Ok(placed_column(headers, headers[i]))),
                None => Some(Err(missing)),
            }
        },
    }
}

fn locate_date_column(
    headers: &[String],
    rows: &Vec<Vec<String>>,
    named: &Option<String>,
    missing: &str,
) -> (r: Option<Result<NamedColumn, String>>)
    ensures
        date_result(r) == date_column(
            text::views(headers@),
            rows@,
            crate::planner::optional_text(*named),
            missing@,
        ),
        match r {
            Some(Ok(c)) => c.idx < headers.len(),
            _ => true,
        },
{
    let ghost hs = text::views(headers@);
    match named {
        Some(name) => Some(find_column(headers, name.as_str())),
        None => match auto_detect_date_column(headers, rows) {
            None => None,
            Some(None) => Some(Err(missing.to_owned())),
            Some(Some(found)) => {
                proof {
                    let k = table::best_date_column(rows@, hs, headers@.len() as int)->0;
                    assert(hs[k] == found@);
                    lemma_placed(hs, found@, k);
                }
                match column_index(headers, found.as_str()) {
                    Some(idx) => Some(Ok(NamedColumn { name: found, idx })),
                    None => None,
                }
            },
        },
    }
}

pub open spec fn no_date_text() -> Seq<char> {
    "date column is required for investigate mode; pass --date-column or provide a detectable date column"@
}

pub open spec fn no_query_date_text() -> Seq<char> {
    "failed to auto-detect date column from postgres query output; pass --date-column"@
}

/// The date column of a driver investigation.
pub fn find_date_column(
    headers: &[String],
    rows: &Vec<Vec<String>>,
    named: &Option<String>,
) -> (r: Option<Result<NamedColumn, String>>)
    ensures
        date_result(r) == date_column(
            text::views(headers@),
            rows@,
            crate::planner::optional_text(*named),
            no_date_text(),
        ),
        match r {
            Some(Ok(c)) => c.idx < headers.len(),
            _ => true,
        },
{
    locate_date_column(
        headers,
        rows,
        named,
        "date column is required for investigate mode; pass --date-column or provide a detectable date column",
    )
}

/// The date column of what a query returned.
pub fn find_query_date_column(
    headers: &[String],
    rows: &Vec<Vec<String>>,
    named: &Option<String>,
) -> (r: Option<Result<NamedColumn, String>>)
    ensures
        date_result(r) == date_column(
            text::views(headers@),
            rows@,
            crate::planner::optional_text(*named),
            no_query_date_text(),
        ),
        match r {
            Some(Ok(c)) => c.idx < headers.len(),
            _ => true,
        },
{
    locate_date_column(
        headers,
        rows,
        named,
        "failed to auto-detect date column from postgres query output; pass --date-column",
    )
}

/// The date column by which one table is split in two: it has to be named.
pub open spec fn splitting_column(headers: Seq<Seq<char>>, named: Option<Seq<char>>) -> Result<
    (Seq<char>, int),
    Seq<char>,
> {
    match named {
        Some(name) => meant_column(headers, name),
        None => Err("--date-column is required when --input-new is not provided"@),
    }
}

/// The date column by which one table is split in two.
pub fn require_date_column(headers: &[String], named: &Option<String>) -> (r: Result<
    NamedColumn,
    String,
>)
    ensures
        column_result(r) == splitting_column(
            text::views(headers@),
            crate::planner::optional_text(*named),
        ),
        match r {
            Ok(c) => c.idx < headers.len(),
            Err(_) => true,
        },
{
    match named {
        Some(name) => find_column(headers, name.as_str()),
        None => Err("--date-column is required when --input-new is not provided".to_owned()),
    }
}

/// The column that a name means stands at its place under its own name, which is
/// the name without the space around it and without regard to case; none before
/// it has that name.
pub proof fn law_meant_columns_stand_at_their_place(headers: Seq<Seq<char>>, name: Seq<char>)
    ensures
        match meant_column(headers, name) {
            Ok(c) => {
                &&& 0 <= c.1 < headers.len()
                &&& headers[c.1] == c.0
                &&& text::lower(c.0) == text::lower(text::trim(name))
                &&& headers.contains(text::trim(name)) ==> c.0 == text::trim(name)
                &&& forall|i: int| 0 <= i < c.1 ==> #[trigger] headers[i] != c.0
            },
            Err(_) => forall|i: int|
                0 <= i < headers.len() ==> text::lower(#[trigger] headers[i]) != text::lower(
                    text::trim(name),
                ),
        },
{
    table::law_names_mean_their_columns(headers, name);
    if let Some(c) = table::column_named(headers, name) {
        let k = choose|k: int| 0 <= k < headers.len() && headers[k] == c;
        lemma_placed(headers, c, k);
        list::lemma_first_from(headers, table::equals(c), 0);
        let at = list::first_from(headers, table::equals(c), 0)->0;
        assert(table::equals(c)(headers[at]));
        assert forall|i: int| 0 <= i < at implies #[trigger] headers[i] != c by {
            assert(!table::equals(c)(headers[i]));
        }
    }
}

} // verus!
