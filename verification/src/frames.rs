//! The two halves of a comparison: two tables, or two windows of one.

use vstd::prelude::*;

use crate::dates;
use crate::dates::write_date;
use crate::decomposition::{IdentityFit, WindowRow};
use crate::digits;
use crate::digits::count_text;
use crate::list;
use crate::periods::WindowSet;
use crate::text;
use crate::text::{cat3, cat4, cat5, same};

verus! {

/// Checks that two tables have the same columns in the same order.
pub fn check_same_headers(headers: &Vec<String>, headers_new: &Vec<String>) -> (r: Result<
    (),
    String,
>)
    ensures
        match r {
            Ok(_) => text::views(headers@) == text::views(headers_new@),
            Err(e) => text::views(headers@) != text::views(headers_new@) && e@
                == "input and input-new must have identical headers"@,
        },
{
    let ghost a = text::views(headers@);
    let ghost b = text::views(headers_new@);
    let failure = "input and input-new must have identical headers";
    if headers.len() != headers_new.len() {
        assert(a.len() != b.len());
        return Err(failure.to_owned());
    }
    let mut i: usize = 0;
    while i < headers.len()
        invariant
            i <= headers.len(),
            headers.len() == headers_new.len(),
            a == text::views(headers@),
            b == text::views(headers_new@),
            failure@ == "input and input-new must have identical headers"@,
            forall|k: int| 0 <= k < i ==> #[trigger] a[k] == b[k],
        decreases headers.len() - i,
    {
        if !same(headers[i].as_str(), headers_new[i].as_str()) {
            assert(a[i as int] != b[i as int]);
            return Err(failure.to_owned());
        }
        i += 1;
    }
    assert(a =~= b);
    Ok(())
}

/// The rows of the previous window among the first `n`.
pub open spec fn base_rows(rows: Seq<WindowRow>, n: int) -> Seq<usize>
    decreases n,
{
    if n <= 0 {
        Seq::empty()
    } else if rows[n - 1].previous {
        base_rows(rows, n - 1).push(rows[n - 1].row)
    } else {
        base_rows(rows, n - 1)
    }
}

/// The rows of the current window among the first `n`; a row of both windows
/// belongs to the previous one.
pub open spec fn new_rows(rows: Seq<WindowRow>, n: int) -> Seq<usize>
    decreases n,
{
    if n <= 0 {
        Seq::empty()
    } else if rows[n - 1].current && !rows[n - 1].previous {
        new_rows(rows, n - 1).push(rows[n - 1].row)
    } else {
        new_rows(rows, n - 1)
    }
}

/// Splits the rows of a table into those of the previous and those of the
/// current window.
pub fn split_rows(rows: &Vec<WindowRow>) -> (r: (Vec<usize>, Vec<usize>))
    ensures
        r.0@ == base_rows(rows@, rows@.len() as int),
        r.1@ == new_rows(rows@, rows@.len() as int),
{
    let mut base: Vec<usize> = Vec::new();
    let mut new: Vec<usize> = Vec::new();
    let mut i: usize = 0;
    while i < rows.len()
        invariant
            i <= rows.len(),
            base@ == base_rows(rows@, i as int),
            new@ == new_rows(rows@, i as int),
        decreases rows.len() - i,
    {
        if rows[i].previous {
            base.push(rows[i].row);
        } else if rows[i].current {
            new.push(rows[i].row);
        }
        i += 1;
    }
    (base, new)
}

/// One of the first `n` rows has this number, and lies in the previous window
/// or does not.
spec fn comes_from(rows: Seq<WindowRow>, n: int, row: usize, previous: bool) -> bool {
    exists|k: int| 0 <= k < n && (#[trigger] rows[k]).row == row && rows[k].previous == previous
}

proof fn lemma_sides(rows: Seq<WindowRow>, n: int)
    requires
        0 <= n <= rows.len(),
    ensures
        forall|i: int|
            0 <= i < base_rows(rows, n).len() ==> comes_from(
                rows,
                n,
                #[trigger] base_rows(rows, n)[i],
                true,
            ),
        forall|j: int|
            0 <= j < new_rows(rows, n).len() ==> comes_from(
                rows,
                n,
                #[trigger] new_rows(rows, n)[j],
                false,
            ),
    decreases n,
{
    if n > 0 {
        lemma_sides(rows, n - 1);
        let b = base_rows(rows, n - 1);
        let w = new_rows(rows, n - 1);
        assert forall|row: usize, p: bool| comes_from(rows, n - 1, row, p) implies comes_from(
            rows,
            n,
            row,
            p,
        ) by {
            let k = choose|k: int|
                0 <= k < n - 1 && (#[trigger] rows[k]).row == row && rows[k].previous == p;
            assert(rows[k].row == row);
        }
        assert(comes_from(rows, n, rows[n - 1].row, rows[n - 1].previous));
        assert forall|i: int| 0 <= i < base_rows(rows, n).len() implies comes_from(
            rows,
            n,
            #[trigger] base_rows(rows, n)[i],
            true,
        ) by {
            if i < b.len() {
                assert(base_rows(rows, n)[i] == b[i]);
            }
        }
        assert forall|j: int| 0 <= j < new_rows(rows, n).len() implies comes_from(
            rows,
            n,
            #[trigger] new_rows(rows, n)[j],
            false,
        ) by {
            if j < w.len() {
                assert(new_rows(rows, n)[j] == w[j]);
            }
        }
    }
}

/// No row stands in both halves, as long as no row is listed twice.
pub proof fn law_halves_are_disjoint(rows: Seq<WindowRow>)
    requires
        forall|i: int, j: int|
            0 <= i < j < rows.len() ==> (#[trigger] rows[i]).row != (#[trigger] rows[j]).row,
    ensures
        forall|i: int, j: int|
            0 <= i < base_rows(rows, rows.len() as int).len() && 0 <= j < new_rows(
                rows,
                rows.len() as int,
            ).len() ==> #[trigger] base_rows(rows, rows.len() as int)[i] != #[trigger] new_rows(
                rows,
                rows.len() as int,
            )[j],
{
    let n = rows.len() as int;
    lemma_sides(rows, n);
    assert forall|i: int, j: int|
        0 <= i < base_rows(rows, n).len() && 0 <= j < new_rows(rows, n).len() implies
        #[trigger] base_rows(rows, n)[i] != #[trigger] new_rows(rows, n)[j] by {
        let x = base_rows(rows, n)[i];
        let y = new_rows(rows, n)[j];
        let p = choose|k: int|
            0 <= k < n && (#[trigger] rows[k]).row == x && rows[k].previous == true;
        let q = choose|k: int|
            0 <= k < n && (#[trigger] rows[k]).row == y && rows[k].previous == false;
        assert(rows[p].row == x && rows[q].row == y && p != q);
    }
}

/// Checks that both halves of a driver comparison hold rows.
pub fn check_frames(base: usize, new: usize) -> (r: Result<(), String>)
    ensures
        match r {
            Ok(_) => base > 0 && new > 0,
            Err(e) => (base == 0 || new == 0) && e@
                == "analyze-drivers needs non-empty base and new frames"@,
        },
{
    if base == 0 || new == 0 {
        Err("analyze-drivers needs non-empty base and new frames".to_owned())
    } else {
        Ok(())
    }
}

/// Checks that both windows of a query hold rows.
pub fn check_query_windows(previous: usize, current: usize) -> (r: Result<(), String>)
    ensures
        match r {
            Ok(_) => previous > 0 && current > 0,
            Err(e) => (previous == 0 || current == 0) && e@
                == "period windows contain no comparable rows from postgres query (previous="@
                + digits::decimal(previous as nat) + ", current="@ + digits::decimal(
                current as nat,
            ) + ")"@,
        },
{
    if previous == 0 || current == 0 {
        Err(
            cat5(
                "period windows contain no comparable rows from postgres query (previous=",
                count_text(previous).as_str(),
                ", current=",
                count_text(current).as_str(),
                ")",
            ),
        )
    } else {
        Ok(())
    }
}

/// The fit of an identity, or the metric for which none was found.
pub fn require_identity(fit: Option<IdentityFit>, metric: &str) -> (r: Result<IdentityFit, String>)
    ensures
        match fit {
            Some(f) => r == Ok::<IdentityFit, String>(f),
            None => r is Err && r->Err_0@ == "no stable 2-term identity found for '"@ + metric@
                + "'"@,
        },
{
    match fit {
        Some(f) => Ok(f),
        None => Err(cat3("no stable 2-term identity found for '", metric, "'")),
    }
}

/// Checks that a table that suggestions are asked for has columns.
pub fn check_columns(columns: usize) -> (r: Result<(), String>)
    ensures
        match r {
            Ok(_) => columns > 0,
            Err(e) => columns == 0 && e@ == "input CSV has no columns"@,
        },
{
    if columns == 0 {
        Err("input CSV has no columns".to_owned())
    } else {
        Ok(())
    }
}

/// Checks that a table that suggestions are asked for has rows.
pub fn check_rows(rows: usize) -> (r: Result<(), String>)
    ensures
        match r {
            Ok(_) => rows > 0,
            Err(e) => rows == 0 && e@ == "input CSV has no rows"@,
        },
{
    if rows == 0 {
        Err("input CSV has no rows".to_owned())
    } else {
        Ok(())
    }
}

/// The windows of a query as labels, the previous one first.
pub fn query_labels(date_column: &str, w: WindowSet) -> (r: (String, String))
    ensures
        r.0@ == "postgres query ("@ + date_column@ + ") previous window "@ + dates::date_text(
            w.previous_start,
        ) + ".."@ + dates::date_text(w.previous_end),
        r.1@ == "postgres query ("@ + date_column@ + ") current window "@ + dates::date_text(
            w.current_start,
        ) + ".."@ + dates::date_text(w.current_end),
{
    let mut a = cat4(
        "postgres query (",
        date_column,
        ") previous window ",
        write_date(w.previous_start).as_str(),
    );
    a.append("..");
    a.append(write_date(w.previous_end).as_str());
    let mut b = cat4(
        "postgres query (",
        date_column,
        ") current window ",
        write_date(w.current_start).as_str(),
    );
    b.append("..");
    b.append(write_date(w.current_end).as_str());
    (a, b)
}

/// Two files as the subject of a comparison.
pub fn files_summary(input: &str, input_new: &str) -> (r: String)
    ensures
        r@ == "base="@ + input@ + " new="@ + input_new@,
{
    cat4("base=", input, " new=", input_new)
}

/// Two windows as the subject of a comparison, the current one first.
pub fn windows_summary(w: WindowSet) -> (r: String)
    ensures
        r@ == dates::date_text(w.current_start) + ".."@ + dates::date_text(w.current_end) + " vs "@
            + dates::date_text(w.previous_start) + ".."@ + dates::date_text(w.previous_end),
{
    let mut out = cat4(
        write_date(w.current_start).as_str(),
        "..",
        write_date(w.current_end).as_str(),
        " vs ",
    );
    out.append(write_date(w.previous_start).as_str());
    out.append("..");
    out.append(write_date(w.previous_end).as_str());
    out
}

/// The base half holds the rows of the previous window, and the new half those
/// of the current window that are not in the previous one, each in order and
/// none else.
pub proof fn law_halves_hold_the_rows_of_their_window(rows: Seq<WindowRow>, n: int)
    requires
        0 <= n <= rows.len(),
    ensures
        base_rows(rows, n) == list::keep(rows.take(n), |r: WindowRow| r.previous).map_values(
            |r: WindowRow| r.row,
        ),
        new_rows(rows, n) == list::keep(
            rows.take(n),
            |r: WindowRow| !r.previous && r.current,
        ).map_values(|r: WindowRow| r.row),
    decreases n,
{
    let base = |r: WindowRow| r.previous;
    let new = |r: WindowRow| !r.previous && r.current;
    let row = |r: WindowRow| r.row;
    if n > 0 {
        law_halves_hold_the_rows_of_their_window(rows, n - 1);
        assert(rows.take(n).drop_last() =~= rows.take(n - 1));
        let x = rows[n - 1];
        if base(x) {
            assert(list::keep(rows.take(n), base).map_values(row) =~= list::keep(
                rows.take(n - 1),
                base,
            ).map_values(row).push(x.row));
        }
        if new(x) {
            assert(list::keep(rows.take(n), new).map_values(row) =~= list::keep(
                rows.take(n - 1),
                new,
            ).map_values(row).push(x.row));
        }
    } else {
        assert(list::keep(rows.take(n), base).map_values(row) =~= Seq::<usize>::empty());
        assert(list::keep(rows.take(n), new).map_values(row) =~= Seq::<usize>::empty());
    }
}

} // verus!
