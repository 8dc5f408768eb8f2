//! What moved a metric between two windows: the share of each driver, the
//! identity between columns, and the signals in what is left over.

use vstd::prelude::*;

use crate::args::InvestigateArgs;
use crate::dates;
use crate::dates::write_date;
use crate::digits;
use crate::digits::{count_text, decimal_text};
use crate::drivers;
use crate::drivers::{write_driver_label, DriverAgg, DriverSpec};
use crate::groups;
use crate::groups::cell_of;
use crate::list;
use crate::num::Num;
use crate::numeric;
use crate::numeric::numeric_cell;
use crate::order;
use crate::order::{sort_by, text_before};
use crate::periods;
use crate::periods::{can_parse_date, parse_date_like, WindowSet};
use crate::report;
use crate::report::{say, write_page};
use crate::scan;
use crate::scan::{mentions, split_at_first};
use crate::table;
use crate::text;
use crate::text::{cat2, cat3, cat4, cat5, to_lower};

verus! {

// ---------------------------------------------------------------------------
// Options
// ---------------------------------------------------------------------------

/// What is wrong with the options of a driver investigation.
pub open spec fn option_error(args: InvestigateArgs) -> Option<Seq<char>> {
    if args.top_drivers < 1 {
        Some("--top-drivers must be >= 1"@)
    } else if args.drivers@.len() > 0 && args.driver_preset is Some {
        Some("use either --drivers or --driver-preset, not both"@)
    } else {
        None
    }
}

/// Checks the options of a driver investigation.
pub fn check_investigate_options(args: &InvestigateArgs) -> (r: Result<(), String>)
    ensures
        match r {
            Ok(_) => option_error(*args) is None,
            Err(e) => option_error(*args) == Some(e@),
        },
{
    if args.top_drivers < 1 {
        return Err("--top-drivers must be >= 1".to_owned());
    }
    if args.drivers.len() > 0 && args.driver_preset.is_some() {
        return Err("use either --drivers or --driver-preset, not both".to_owned());
    }
    Ok(())
}

// ---------------------------------------------------------------------------
// Rows in windows
// ---------------------------------------------------------------------------

/// A row in one of the windows, or in both.
#[derive(Clone, Copy, Debug, PartialEq, Eq, Structural)]
pub struct WindowRow {
    pub row: usize,
    pub current: bool,
    pub previous: bool,
}

/// The windows in which a row lies.
pub open spec fn placed(row: Seq<String>, date_idx: int, w: WindowSet) -> (bool, bool) {
    match periods::cell_day(groups::cell(row, date_idx)) {
        None => (false, false),
        Some(d) => (w.is_current(d), w.is_previous(d)),
    }
}

/// The rows below `n` that lie in a window.
pub open spec fn rows_in_windows(
    rows: Seq<Vec<String>>,
    date_idx: int,
    w: WindowSet,
    n: int,
) -> Seq<WindowRow>
    decreases n,
{
    if n <= 0 {
        Seq::empty()
    } else {
        let front = rows_in_windows(rows, date_idx, w, n - 1);
        let p = placed(rows[n - 1]@, date_idx, w);
        if p.0 || p.1 {
            front.push(WindowRow { row: (n - 1) as usize, current: p.0, previous: p.1 })
        } else {
            front
        }
    }
}

/// The date cell of one of the first `n` rows cannot be cut at its tenth byte.
pub open spec fn dates_blocked(rows: Seq<Vec<String>>, date_idx: int, n: int) -> bool {
    exists|i: int|
        0 <= i < n && !periods::is_sliceable(
            text::trim(groups::cell(#[trigger] rows[i]@, date_idx)),
        )
}

/// The rows that lie in a window. There is no answer where a date cell has a
/// multi-byte character across its tenth byte.
#[verifier::loop_isolation(false)]
pub fn find_window_rows(rows: &Vec<Vec<String>>, date_idx: usize, windows: WindowSet) -> (r: Option<
    Vec<WindowRow>,
>)
    ensures
        match r {
            Some(v) => !dates_blocked(rows@, date_idx as int, rows@.len() as int) && v@
                == rows_in_windows(rows@, date_idx as int, windows, rows@.len() as int),
            None => dates_blocked(rows@, date_idx as int, rows@.len() as int),
        },
{
    let mut out: Vec<WindowRow> = Vec::new();
    let mut i: usize = 0;
    while i < rows.len()
        invariant
            i <= rows.len(),
            !dates_blocked(rows@, date_idx as int, i as int),
            out@ == rows_in_windows(rows@, date_idx as int, windows, i as int),
        decreases rows.len() - i,
    {
        let raw = cell_of(&rows[i], date_idx);
        if !can_parse_date(raw.as_str()) {
            assert(!periods::is_sliceable(
                text::trim(groups::cell(rows@[i as int]@, date_idx as int)),
            ));
            return None;
        }
        match parse_date_like(raw.as_str()) {
            Some(d) => {
                let current = windows.in_current(d);
                let previous = windows.in_previous(d);
                if current || previous {
                    out.push(WindowRow { row: i, current, previous });
                }
            },
            None => {},
        }
        i += 1;
    }
    Some(out)
}

pub open spec fn in_current() -> spec_fn(WindowRow) -> bool {
    |r: WindowRow| r.current
}

pub open spec fn in_previous() -> spec_fn(WindowRow) -> bool {
    |r: WindowRow| r.previous
}

/// Checks that both windows hold rows, and says how many each holds.
pub fn check_window_rows(rows: &Vec<WindowRow>) -> (r: Result<(u64, u64), String>)
    ensures
        ({
            let c = list::keep(rows@, in_current()).len();
            let p = list::keep(rows@, in_previous()).len();
            match r {
                Ok(n) => c > 0 && p > 0 && n.0 == c && n.1 == p,
                Err(e) => (c == 0 || p == 0) && e@
                    == "period windows contain no comparable rows (current="@ + digits::decimal(c)
                    + ", previous="@ + digits::decimal(p) + ")"@,
            }
        }),
{
    let mut c: u64 = 0;
    let mut p: u64 = 0;
    let mut i: usize = 0;
    while i < rows.len()
        invariant
            i <= rows.len(),
            c <= i,
            p <= i,
            c == list::keep(rows@.take(i as int), in_current()).len(),
            p == list::keep(rows@.take(i as int), in_previous()).len(),
        decreases rows.len() - i,
    {
        assert(rows@.take(i + 1).drop_last() =~= rows@.take(i as int));
        if rows[i].current {
            c += 1;
        }
        if rows[i].previous {
            p += 1;
        }
        i += 1;
    }
    assert(rows@.take(rows@.len() as int) =~= rows@);
    if c == 0 || p == 0 {
        return Err(
            cat5(
                "period windows contain no comparable rows (current=",
                decimal_text(c).as_str(),
                ", previous=",
                decimal_text(p).as_str(),
                ")",
            ),
        );
    }
    Ok((c, p))
}

// ---------------------------------------------------------------------------
// Contributions
// ---------------------------------------------------------------------------

/// The share of a driver in a change: in percent and in the driver's own measure.
#[derive(Clone, Debug)]
pub struct Contribution {
    pub name: String,
    pub percent: Num,
    pub delta: Num,
    pub agg: Option<DriverAgg>,
}

/// The bit pattern of two.
pub const TWO: u64 = 0x4000_0000_0000_0000;

pub open spec fn weightier(a: Contribution, b: Contribution) -> bool {
    b.percent.abs_spec().lt(a.percent.abs_spec())
}

pub open spec fn weight_order() -> spec_fn(Contribution, Contribution) -> bool {
    |a: Contribution, b: Contribution| weightier(a, b)
}

/// A contribution says something: a number of different values that changed by
/// less than two does not.
pub open spec fn is_telling() -> spec_fn(Contribution) -> bool {
    |c: Contribution|
        !(c.agg == Some(DriverAgg::CountDistinct) && c.delta.abs_spec().lt(Num { bits: TWO }))
}

/// The contributions that are reported: the weightiest first, those that say
/// something where there are any, at most `top`.
pub open spec fn reported(all: Seq<Contribution>, top: int) -> Seq<Contribution> {
    let sorted = order::sorted(all, weight_order());
    let telling = list::keep(sorted, is_telling());
    crate::answers::at_most(
        if telling.len() == 0 {
            sorted
        } else {
            telling
        },
        top,
    )
}

fn copy_contribution(c: &Contribution) -> (r: Contribution)
    ensures
        r == *c,
{
    Contribution { name: c.name.clone(), percent: c.percent, delta: c.delta, agg: c.agg }
}

/// Picks the contributions that are reported.
pub fn pick_contributions(all: Vec<Contribution>, top: usize) -> (r: Vec<Contribution>)
    ensures
        r@ == reported(all@, top as int),
{
    let precedes = |a: &Contribution, b: &Contribution| -> (x: bool)
        ensures
            x == weightier(*a, *b),
        { b.percent.abs().less(a.percent.abs()) };
    let mut sorted = sort_by(all, precedes, Ghost(weight_order()));
    let ghost p = is_telling();
    let mut telling: Vec<Contribution> = Vec::new();
    let mut i: usize = 0;
    assert(telling@ =~= list::keep(sorted@.take(0), p));
    while i < sorted.len()
        invariant
            i <= sorted.len(),
            p == is_telling(),
            telling@ == list::keep(sorted@.take(i as int), p),
        decreases sorted.len() - i,
    {
        assert(sorted@.take(i + 1).drop_last() =~= sorted@.take(i as int));
        let c = &sorted[i];
        let counts: bool = match c.agg {
            Some(DriverAgg::CountDistinct) => true,
            _ => false,
        };
        if !(counts && c.delta.abs().less(Num { bits: TWO })) {
            telling.push(copy_contribution(c));
        }
        i += 1;
    }
    assert(sorted@.take(sorted@.len() as int) =~= sorted@);
    if telling.len() == 0 {
        sorted.truncate(top);
        sorted
    } else {
        telling.truncate(top);
        telling
    }
}

/// The columns that a regression is made over: those that are summed or averaged.
pub open spec fn measured(specs: Seq<DriverSpec>, n: int) -> Seq<(int, DriverAgg)>
    decreases n,
{
    if n <= 0 {
        Seq::empty()
    } else {
        let front = measured(specs, n - 1);
        let s = specs[n - 1];
        if (s.agg == DriverAgg::Sum || s.agg == DriverAgg::Mean) && s.col_idx is Some {
            front.push((s.col_idx->0 as int, s.agg))
        } else {
            front
        }
    }
}

pub open spec fn measured_views(s: Seq<(usize, DriverAgg)>) -> Seq<(int, DriverAgg)> {
    Seq::new(s.len(), |i: int| (s[i].0 as int, s[i].1))
}

/// The columns that a regression is made over.
pub fn measured_columns(specs: &Vec<DriverSpec>) -> (r: Vec<(usize, DriverAgg)>)
    ensures
        measured_views(r@) == measured(specs@, specs@.len() as int),
{
    let mut out: Vec<(usize, DriverAgg)> = Vec::new();
    let mut i: usize = 0;
    assert(measured_views(out@) =~= Seq::empty());
    while i < specs.len()
        invariant
            i <= specs.len(),
            measured_views(out@) == measured(specs@, i as int),
        decreases specs.len() - i,
    {
        let ghost before = measured_views(out@);
        let agg = specs[i].agg;
        if agg == DriverAgg::Sum || agg == DriverAgg::Mean {
            match specs[i].col_idx {
                Some(k) => {
                    out.push((k, agg));
                    assert(measured_views(out@) =~= before.push((k as int, agg)));
                },
                None => {},
            }
        }
        i += 1;
    }
    out
}

/// The name under which a column's share is reported.
pub fn measured_name(agg: DriverAgg, column: &str) -> (r: String)
    ensures
        r@ == drivers::driver_label(
            if agg == DriverAgg::Mean {
                DriverAgg::Mean
            } else {
                DriverAgg::Sum
            },
            column@,
        ),
{
    match agg {
        DriverAgg::Mean => write_driver_label(DriverAgg::Mean, column),
        _ => write_driver_label(DriverAgg::Sum, column),
    }
}

/// The rows that a regression needs at least.
pub const ENOUGH_ROWS: usize = 20;

/// Whether there are columns and rows for a regression.
pub fn can_fit(columns: usize, rows: usize) -> (r: bool)
    ensures
        r == (columns > 0 && rows >= ENOUGH_ROWS),
{
    columns > 0 && rows >= ENOUGH_ROWS
}

/// How a change is decomposed: by a regression where there are columns and rows
/// for one and it can be solved, else by the drivers' own changes.
pub fn decomposition_mode(columns: usize, rows: usize, solved: bool) -> (r: &'static str)
    ensures
        r@ == (if columns > 0 && rows >= ENOUGH_ROWS && solved {
            "regression"@
        } else {
            "heuristic"@
        }),
{
    if can_fit(columns, rows) && solved {
        "regression"
    } else {
        "heuristic"
    }
}

// ---------------------------------------------------------------------------
// Identities
// ---------------------------------------------------------------------------

/// How two columns are joined.
#[derive(Clone, Copy, Debug, PartialEq, Eq, Structural)]
pub enum DriverIdentityOp {
    Multiply,
    Divide,
}

/// The rows below `n` of which a cell holds a number.
pub open spec fn numbers_in(rows: Seq<Vec<String>>, idx: int, n: int) -> int
    decreases n,
{
    if n <= 0 {
        0
    } else {
        numbers_in(rows, idx, n - 1) + if idx < rows[n - 1]@.len() && numeric::is_numeric_cell(
            groups::cell(rows[n - 1]@, idx),
        ) {
            1int
        } else {
            0int
        }
    }
}

/// The first 5000 rows of the base, filled up from the newer rows.
pub open spec fn numbers_in_both(
    base: Seq<Vec<String>>,
    new: Seq<Vec<String>>,
    idx: int,
) -> int {
    let a = table::sample_size(base, 5000);
    let b = table::sample_size(new, (5000 - a) as usize);
    numbers_in(base, idx, a) + numbers_in(new, idx, b)
}

fn count_numbers(rows: &Vec<Vec<String>>, idx: usize, limit: usize) -> (r: usize)
    ensures
        r == numbers_in(rows@, idx as int, table::sample_size(rows@, limit)),
        r <= limit,
{
    let n: usize = if rows.len() < limit {
        rows.len()
    } else {
        limit
    };
    let mut k: usize = 0;
    let mut i: usize = 0;
    while i < n
        invariant
            i <= n <= rows.len(),
            n <= limit,
            k <= i,
            k == numbers_in(rows@, idx as int, i as int),
        decreases n - i,
    {
        if idx < rows[i].len() && numeric_cell(cell_of(&rows[i], idx).as_str()) {
            k += 1;
        }
        i += 1;
    }
    k
}

/// The columns that can take part in an identity, among the first `n`: other
/// than the metric, with at least 20 numbers.
pub open spec fn identity_columns(
    base: Seq<Vec<String>>,
    new: Seq<Vec<String>>,
    metric_idx: int,
    n: int,
) -> Seq<int>
    decreases n,
{
    if n <= 0 {
        Seq::empty()
    } else {
        let front = identity_columns(base, new, metric_idx, n - 1);
        if n - 1 != metric_idx && numbers_in_both(base, new, n - 1) >= 20 {
            front.push(n - 1)
        } else {
            front
        }
    }
}

/// The columns that can take part in an identity.
pub fn find_identity_columns(
    base: &Vec<Vec<String>>,
    new: &Vec<Vec<String>>,
    columns: usize,
    metric_idx: usize,
) -> (r: Vec<usize>)
    ensures
        crate::plan::index_views(r@) == identity_columns(
            base@,
            new@,
            metric_idx as int,
            columns as int,
        ),
{
    let mut out: Vec<usize> = Vec::new();
    let mut i: usize = 0;
    assert(crate::plan::index_views(out@) =~= Seq::empty());
    while i < columns
        invariant
            i <= columns,
            crate::plan::index_views(out@) == identity_columns(
                base@,
                new@,
                metric_idx as int,
                i as int,
            ),
        decreases columns - i,
    {
        let ghost before = crate::plan::index_views(out@);
        if i != metric_idx {
            let a: usize = if base.len() < 5000 {
                base.len()
            } else {
                5000
            };
            let k: usize = count_numbers(base, i, 5000);
            let m: usize = count_numbers(new, i, 5000 - a);
            if k + m >= 20 {
                out.push(i);
                assert(crate::plan::index_views(out@) =~= before.push(i as int));
            }
        }
        i += 1;
    }
    out
}

/// How well two columns, joined, give the metric: the mean relative error over
/// the rows used.
#[derive(Clone, Copy, Debug)]
pub struct IdentityFit {
    pub left: usize,
    pub right: usize,
    pub op: DriverIdentityOp,
    pub error: Num,
    pub rows: usize,
}

/// The bit pattern of 0.15, the largest error of an identity.
pub const LARGEST_ERROR: u64 = 0x3fc3_3333_3333_3333;

/// A fit counts: it rests on enough rows and its error is a finite number.
pub open spec fn is_sound() -> spec_fn(IdentityFit) -> bool {
    |f: IdentityFit| f.rows >= 20 && f.error.magnitude() < crate::num::INFINITE
}

pub open spec fn better_fit(a: IdentityFit, b: IdentityFit) -> bool {
    a.error.lt(b.error)
}

pub open spec fn fit_order() -> spec_fn(IdentityFit, IdentityFit) -> bool {
    |a: IdentityFit, b: IdentityFit| better_fit(a, b)
}

pub open spec fn is_close() -> spec_fn(IdentityFit) -> bool {
    |f: IdentityFit| f.error.le(Num { bits: LARGEST_ERROR })
}

/// The identity that fits best, where one fits well enough.
pub open spec fn best_identity(fits: Seq<IdentityFit>) -> Option<IdentityFit> {
    list::first(order::sorted(list::keep(fits, is_sound()), fit_order()), is_close())
}

/// The identity that fits best, where one fits well enough.
#[verifier::loop_isolation(false)]
pub fn choose_identity(fits: &Vec<IdentityFit>) -> (r: Option<IdentityFit>)
    ensures
        r == best_identity(fits@),
{
    let ghost p = is_sound();
    let mut kept: Vec<IdentityFit> = Vec::new();
    let mut i: usize = 0;
    assert(kept@ =~= list::keep(fits@.take(0), p));
    while i < fits.len()
        invariant
            i <= fits.len(),
            p == is_sound(),
            kept@ == list::keep(fits@.take(i as int), p),
        decreases fits.len() - i,
    {
        assert(fits@.take(i + 1).drop_last() =~= fits@.take(i as int));
        if fits[i].rows >= 20 && fits[i].error.finite() {
            kept.push(fits[i]);
        }
        i += 1;
    }
    assert(fits@.take(fits@.len() as int) =~= fits@);
    let precedes = |a: &IdentityFit, b: &IdentityFit| -> (x: bool)
        ensures
            x == better_fit(*a, *b),
        { a.error.less(b.error) };
    let sorted = sort_by(kept, precedes, Ghost(fit_order()));
    let ghost close = is_close();
    let mut k: usize = 0;
    while k < sorted.len()
        invariant
            k <= sorted.len(),
            close == is_close(),
            list::first_from(sorted@, close, k as int) == list::first_from(sorted@, close, 0),
        decreases sorted.len() - k,
    {
        if sorted[k].error.at_most(Num { bits: LARGEST_ERROR }) {
            return Some(sorted[k]);
        }
        k += 1;
    }
    None
}

/// The identity in words.
pub fn identity_text(metric: &str, left: &str, right: &str, op: DriverIdentityOp) -> (r: String)
    ensures
        r@ == metric@ + " ≈ "@ + left@ + (if op == DriverIdentityOp::Multiply {
            " * "@
        } else {
            " / "@
        }) + right@,
{
    match op {
        DriverIdentityOp::Multiply => cat5(metric, " ≈ ", left, " * ", right),
        DriverIdentityOp::Divide => cat5(metric, " ≈ ", left, " / ", right),
    }
}

// ---------------------------------------------------------------------------
// Signals
// ---------------------------------------------------------------------------

/// A sign of what the drivers leave unexplained.
#[derive(Clone, Debug)]
pub struct ResidualSignal {
    pub name: String,
    pub signal_type: String,
    pub score: Num,
    pub detail: String,
}

/// A signal in views.
pub struct SignalView {
    pub name: Seq<char>,
    pub signal_type: Seq<char>,
    pub score: Num,
    pub detail: Seq<char>,
}

impl View for ResidualSignal {
    type V = SignalView;

    open spec fn view(&self) -> SignalView {
        SignalView {
            name: self.name@,
            signal_type: self.signal_type@,
            score: self.score,
            detail: self.detail@,
        }
    }
}

/// The bit pattern of one half.
pub const HALF: u64 = 0x3fe0_0000_0000_0000;

/// The bit pattern of ten thousand.
pub const TEN_THOUSAND: u64 = 0x40c3_8800_0000_0000;

/// The bit pattern of 0.3.
pub const WEAK_CORRELATION: u64 = 0x3fd3_3333_3333_3333;

/// The bit pattern of one thousand.
pub const THOUSAND: u64 = 0x408f_4000_0000_0000;

/// So little is left over that no signal is looked for.
pub fn residual_is_small(percent: Num, amount: Num) -> (r: bool)
    ensures
        r == (percent.abs_spec().lt(Num { bits: HALF }) && amount.abs_spec().lt(
            Num { bits: TEN_THOUSAND },
        )),
{
    percent.abs().less(Num { bits: HALF }) && amount.abs().less(Num { bits: TEN_THOUSAND })
}

/// A column in which signals are looked for.
pub open spec fn is_signal_column(name: Seq<char>, idx: usize, excluded: Seq<usize>) -> bool {
    !excluded.contains(idx) && !scan::contains(text::lower(name), "date"@) && !scan::contains(
        text::lower(name),
        "time"@,
    )
}

/// Whether signals are looked for in a column: it is not excluded and its name
/// speaks of no time.
pub fn looks_for_signals(name: &str, idx: usize, excluded: &Vec<usize>) -> (r: bool)
    ensures
        r == is_signal_column(name@, idx, excluded@),
{
    let mut i: usize = 0;
    while i < excluded.len()
        invariant
            i <= excluded.len(),
            forall|k: int| 0 <= k < i ==> excluded@[k] != idx,
        decreases excluded.len() - i,
    {
        if excluded[i] == idx {
            assert(excluded@[i as int] == idx);
            return false;
        }
        i += 1;
    }
    let n = to_lower(name);
    !mentions(n.as_str(), "date") && !mentions(n.as_str(), "time")
}

/// The rows in which a numeric column needs a number at least to be a signal.
pub const ENOUGH_PAIRS: usize = 20;

/// The signal of a numeric column with a correlation over a number of rows.
pub open spec fn correlation_signal(
    name: Seq<char>,
    pairs: usize,
    correlation: Num,
    written: Seq<char>,
) -> Option<SignalView> {
    if pairs >= ENOUGH_PAIRS && correlation.magnitude() < crate::num::INFINITE && (Num { bits: WEAK_CORRELATION }).le(
        correlation.abs_spec(),
    ) {
        Some(
            SignalView {
                name,
                signal_type: "numeric"@,
                score: correlation.abs_spec(),
                detail: (if Num::zero_spec().le(correlation) {
                    "higher"@
                } else {
                    "lower"@
                }) + " values correlate with residual (corr="@ + written + ")"@,
            },
        )
    } else {
        None
    }
}

pub open spec fn optional_signal(r: Option<ResidualSignal>) -> Option<SignalView> {
    match r {
        Some(s) => Some(s@),
        None => None,
    }
}

/// The signal of a numeric column, where enough rows have a number there and
/// its correlation with what is left over is strong enough. `written` is the
/// correlation as a text.
pub fn numeric_signal(name: &str, pairs: usize, correlation: Num, written: &str) -> (r: Option<
    ResidualSignal,
>)
    ensures
        optional_signal(r) == correlation_signal(name@, pairs, correlation, written@),
{
    if pairs >= ENOUGH_PAIRS && correlation.finite() && (Num { bits: WEAK_CORRELATION }).at_most(correlation.abs()) {
        let direction = if Num::zero().at_most(correlation) {
            "higher"
        } else {
            "lower"
        };
        Some(
            ResidualSignal {
                name: name.to_owned(),
                signal_type: "numeric".to_owned(),
                score: correlation.abs(),
                detail: cat4(direction, " values correlate with residual (corr=", written, ")"),
            },
        )
    } else {
        None
    }
}

/// What is left over for one value of a column.
#[derive(Clone, Debug)]
pub struct ValueResidual {
    pub value: String,
    pub mean: Num,
    pub count: usize,
    pub score: Num,
    pub mean_text: String,
}

/// The value with the highest score among the first `n`, of equal ones the
/// last; only values of at least three rows count.
pub open spec fn strongest_value(values: Seq<ValueResidual>, n: int) -> Option<int>
    decreases n,
{
    if n <= 0 {
        None
    } else {
        let front = strongest_value(values, n - 1);
        if values[n - 1].count < 3 {
            front
        } else {
            match front {
                None => Some(n - 1),
                Some(b) => if values[n - 1].score.lt(values[b].score) {
                    front
                } else {
                    Some(n - 1)
                },
            }
        }
    }
}

/// The signal of a column of categories.
pub open spec fn category_signal(name: Seq<char>, values: Seq<ValueResidual>) -> Option<SignalView> {
    match strongest_value(values, values.len() as int) {
        None => None,
        Some(b) => if values[b].mean.abs_spec().lt(Num { bits: THOUSAND }) {
            None
        } else {
            Some(
                SignalView {
                    name: name + " = "@ + values[b].value@,
                    signal_type: "categorical"@,
                    score: values[b].score,
                    detail: "mean residual "@ + values[b].mean_text@ + " ("@ + digits::decimal(
                        values[b].count as nat,
                    ) + " rows)"@,
                },
            )
        },
    }
}

/// The signal of a column of categories: its strongest value, where that
/// leaves enough over.
pub fn categorical_signal(name: &str, values: &Vec<ValueResidual>) -> (r: Option<ResidualSignal>)
    ensures
        optional_signal(r) == category_signal(name@, values@),
{
    let mut best: Option<usize> = None;
    let mut i: usize = 0;
    while i < values.len()
        invariant
            i <= values.len(),
            match best {
                Some(b) => b < i && strongest_value(values@, i as int) == Some(b as int),
                None => strongest_value(values@, i as int) is None,
            },
        decreases values.len() - i,
    {
        if values[i].count >= 3 {
            match best {
                None => {
                    best = Some(i);
                },
                Some(b) => {
                    if !values[i].score.less(values[b].score) {
                        best = Some(i);
                    }
                },
            }
        }
        i += 1;
    }
    match best {
        None => None,
        Some(b) => {
            let v = &values[b];
            if v.mean.abs().less(Num { bits: THOUSAND }) {
                return None;
            }
            Some(
                ResidualSignal {
                    name: cat3(name, " = ", v.value.as_str()),
                    signal_type: "categorical".to_owned(),
                    score: v.score,
                    detail: cat5(
                        "mean residual ",
                        v.mean_text.as_str(),
                        " (",
                        count_text(v.count).as_str(),
                        " rows)",
                    ),
                },
            )
        },
    }
}

pub open spec fn stronger_signal(a: ResidualSignal, b: ResidualSignal) -> bool {
    b.score.lt(a.score) || (!a.score.lt(b.score) && order::text_less(a.name@, b.name@))
}

pub open spec fn signal_order() -> spec_fn(ResidualSignal, ResidualSignal) -> bool {
    |a: ResidualSignal, b: ResidualSignal| stronger_signal(a, b)
}

/// The strongest signals first, equally strong ones by name, at most `top_n`.
pub fn rank_signals(signals: Vec<ResidualSignal>, top_n: usize) -> (r: Vec<ResidualSignal>)
    ensures
        r@ == crate::answers::at_most(order::sorted(signals@, signal_order()), top_n as int),
{
    let precedes = |a: &ResidualSignal, b: &ResidualSignal| -> (x: bool)
        ensures
            x == stronger_signal(*a, *b),
        {
            b.score.less(a.score) || (!a.score.less(b.score) && text_before(
                a.name.as_str(),
                b.name.as_str(),
            ))
        };
    let mut out = sort_by(signals, precedes, Ghost(signal_order()));
    out.truncate(top_n);
    out
}

/// A signal's name with spaces round its equals sign.
pub open spec fn spaced_name(name: Seq<char>) -> Seq<char> {
    if scan::contains(name, " = "@) {
        name
    } else {
        match scan::split_once(name, "="@) {
            Some(p) => p.0 + " = "@ + p.1,
            None => name,
        }
    }
}

/// A signal's name with spaces round its equals sign.
pub fn pretty_signal_name(name: &str) -> (r: String)
    ensures
        r@ == spaced_name(name@),
{
    if mentions(name, " = ") {
        return name.to_owned();
    }
    match split_at_first(name, "=") {
        Some(p) => cat3(p.0.as_str(), " = ", p.1.as_str()),
        None => name.to_owned(),
    }
}

// ---------------------------------------------------------------------------
// Reports
// ---------------------------------------------------------------------------

/// A column of an identity before and after, and its share in the change.
#[derive(Clone, Debug)]
pub struct DriverLine {
    pub name: String,
    pub base: String,
    pub new: String,
    pub contribution: String,
}

/// Everything that a decomposition says.
#[derive(Clone, Debug)]
pub struct DriversBrief {
    pub input: String,
    pub input_new: Option<String>,
    pub metric: String,
    pub total_change: String,
    pub window: String,
    pub expression: String,
    pub fit_error: String,
    pub fit_rows: usize,
    pub left: DriverLine,
    pub right: DriverLine,
    pub explained_change: String,
    pub explained_share: String,
    pub residual_change: String,
    pub residual_amount: String,
    pub signals: Vec<ResidualSignal>,
    pub md_path: String,
    pub json_path: String,
}

/// A driver and its share in the change.
#[derive(Clone, Debug)]
pub struct ContributionLine {
    pub name: String,
    pub percent: String,
    pub delta: String,
}

/// Everything that a driver investigation says.
#[derive(Clone, Debug)]
pub struct InvestigateBrief {
    pub input: String,
    pub metric: String,
    pub change: String,
    pub windows: WindowSet,
    pub mode: String,
    pub drivers: Vec<ContributionLine>,
    pub explained: String,
    pub explained_share: String,
    pub residual_change: String,
    pub residual_amount: String,
    pub signals: Vec<ResidualSignal>,
}

/// A line for each signal.
pub open spec fn write_signals_lines(out: Seq<Seq<char>>, items: Seq<ResidualSignal>, n: int) -> Seq<Seq<char>>
    decreases n,
{
    if n <= 0 {
        out
    } else {
        let out = write_signals_lines(out, items, n - 1);
        let x = items[n - 1];
        let out = out.push("- "@ + spaced_name(x.name@) + ": "@ + x.detail@);
        out
    }
}

/// A line for each signal.
#[verifier::loop_isolation(false)]
pub fn write_signals(out: &mut Vec<String>, items: &Vec<ResidualSignal>)
    ensures
        text::views(final(out)@) == write_signals_lines(text::views(old(out)@), items@, items@.len() as int),
{
    let mut i: usize = 0;
    while i < items.len()
        invariant
            i <= items.len(),
            text::views(out@) == write_signals_lines(text::views(old(out)@), items@, i as int),
        decreases items.len() - i,
    {
        let x = &items[i];
        say(out, cat4("- ", pretty_signal_name(x.name.as_str()).as_str(), ": ", x.detail.as_str()));
        i += 1;
    }
}

/// All sections of a decomposition.
pub open spec fn write_drivers_brief_lines(out: Seq<Seq<char>>, b: DriversBrief) -> Seq<Seq<char>> {
    let out = out.push("# Driver Decomposition"@);
    let out = out.push(""@);
    let out = out.push("- Input: "@ + b.input@);
    let out = match b.input_new {
        Some(p) => {
            let out = out.push("- Input new: "@ + p@);
            out
        },
        None => out,
    };
    let out = out.push("## "@ + b.metric@ + " change: "@ + b.total_change@ + "%"@);
    let out = out.push(""@);
    let out = out.push("Window: `"@ + b.window@ + "`"@);
    let out = out.push(""@);
    let out = out.push("## Inferred identity"@);
    let out = out.push(""@);
    let out = out.push("- `"@ + b.expression@ + "`"@);
    let out = out.push("- fit MAPE: "@ + b.fit_error@ + "% across "@ + digits::decimal(b.fit_rows as nat) + " rows"@);
    let out = out.push(""@);
    let out = out.push("## Driver contributions"@);
    let out = out.push(""@);
    let out = out.push("| Driver | Base | New | Contribution % |"@);
    let out = out.push("|---|---:|---:|---:|"@);
    let out = out.push("| "@ + b.left.name@ + " | "@ + b.left.base@ + " | "@ + b.left.new@ + " | "@ + b.left.contribution@ + "% |"@);
    let out = out.push("| "@ + b.right.name@ + " | "@ + b.right.base@ + " | "@ + b.right.new@ + " | "@ + b.right.contribution@ + "% |"@);
    let out = out.push(""@);
    let out = out.push("## Closure check"@);
    let out = out.push(""@);
    let out = out.push("- explained: "@ + b.explained_change@ + "% ("@ + b.explained_share@ + "%)"@);
    let out = out.push("- residual: "@ + b.residual_change@ + "% ("@ + b.residual_amount@ + ")."@);
    let out = if b.signals@.len() > 0 {
        let out = out.push(""@);
        let out = out.push("## Residual segments"@);
        let out = out.push(""@);
        let out = write_signals_lines(out, b.signals@, b.signals@.len() as int);
        out
    } else {
        out
    };
    let out = out.push(""@);
    let out = out.push("## Artifacts written"@);
    let out = out.push(""@);
    let out = out.push("- "@ + b.md_path@);
    let out = out.push("- "@ + b.json_path@);
    out
}

/// All sections of a decomposition.
pub fn write_drivers_brief(out: &mut Vec<String>, b: &DriversBrief)
    ensures
        text::views(final(out)@) == write_drivers_brief_lines(text::views(old(out)@), *b),
{
    say(out, "# Driver Decomposition".to_owned());
    say(out, "".to_owned());
    say(out, cat2("- Input: ", b.input.as_str()));
    match &b.input_new {
        Some(p) => {
            say(out, cat2("- Input new: ", p.as_str()));
        },
        None => {},
    }
    say(out, cat5("## ", b.metric.as_str(), " change: ", b.total_change.as_str(), "%"));
    say(out, "".to_owned());
    say(out, cat3("Window: `", b.window.as_str(), "`"));
    say(out, "".to_owned());
    say(out, "## Inferred identity".to_owned());
    say(out, "".to_owned());
    say(out, cat3("- `", b.expression.as_str(), "`"));
    say(out, cat5("- fit MAPE: ", b.fit_error.as_str(), "% across ", count_text(b.fit_rows).as_str(), " rows"));
    say(out, "".to_owned());
    say(out, "## Driver contributions".to_owned());
    say(out, "".to_owned());
    say(out, "| Driver | Base | New | Contribution % |".to_owned());
    say(out, "|---|---:|---:|---:|".to_owned());
    let mut line = cat5("| ", b.left.name.as_str(), " | ", b.left.base.as_str(), " | ");
    line.append(b.left.new.as_str());
    line.append(" | ");
    line.append(b.left.contribution.as_str());
    line.append("% |");
    say(out, line);
    let mut line = cat5("| ", b.right.name.as_str(), " | ", b.right.base.as_str(), " | ");
    line.append(b.right.new.as_str());
    line.append(" | ");
    line.append(b.right.contribution.as_str());
    line.append("% |");
    say(out, line);
    say(out, "".to_owned());
    say(out, "## Closure check".to_owned());
    say(out, "".to_owned());
    say(out, cat5("- explained: ", b.explained_change.as_str(), "% (", b.explained_share.as_str(), "%)"));
    say(out, cat5("- residual: ", b.residual_change.as_str(), "% (", b.residual_amount.as_str(), ")."));
    if b.signals.len() > 0 {
        say(out, "".to_owned());
        say(out, "## Residual segments".to_owned());
        say(out, "".to_owned());
        write_signals(out, &b.signals);
    }
    say(out, "".to_owned());
    say(out, "## Artifacts written".to_owned());
    say(out, "".to_owned());
    say(out, cat2("- ", b.md_path.as_str()));
    say(out, cat2("- ", b.json_path.as_str()));
}

/// A row for each driver.
pub open spec fn write_contributions_lines(out: Seq<Seq<char>>, items: Seq<ContributionLine>, n: int) -> Seq<Seq<char>>
    decreases n,
{
    if n <= 0 {
        out
    } else {
        let out = write_contributions_lines(out, items, n - 1);
        let x = items[n - 1];
        let out = out.push("| "@ + x.name@ + " | "@ + x.percent@ + "% | "@ + x.delta@ + " |"@);
        out
    }
}

/// A row for each driver.
#[verifier::loop_isolation(false)]
pub fn write_contributions(out: &mut Vec<String>, items: &Vec<ContributionLine>)
    ensures
        text::views(final(out)@) == write_contributions_lines(text::views(old(out)@), items@, items@.len() as int),
{
    let mut i: usize = 0;
    while i < items.len()
        invariant
            i <= items.len(),
            text::views(out@) == write_contributions_lines(text::views(old(out)@), items@, i as int),
        decreases items.len() - i,
    {
        let x = &items[i];
        let mut line = cat5("| ", x.name.as_str(), " | ", x.percent.as_str(), "% | ");
        line.append(x.delta.as_str());
        line.append(" |");
        say(out, line);
        i += 1;
    }
}

/// All sections of a driver investigation.
pub open spec fn write_investigate_brief_lines(out: Seq<Seq<char>>, b: InvestigateBrief) -> Seq<Seq<char>> {
    let out = out.push("# Investigate Report"@);
    let out = out.push(""@);
    let out = out.push("- Input: "@ + b.input@);
    let out = out.push("## "@ + b.metric@ + " change: "@ + b.change@ + "%"@);
    let out = out.push(""@);
    let out = out.push("Window: `"@ + dates::date_text(b.windows.current_start) + ".."@ + dates::date_text(b.windows.current_end) + " vs "@ + dates::date_text(b.windows.previous_start) + ".."@ + dates::date_text(b.windows.previous_end) + "`"@);
    let out = out.push(""@);
    let out = out.push("Decomposition mode: `"@ + b.mode@ + "`"@);
    let out = out.push(""@);
    let out = out.push("## Driver contributions"@);
    let out = out.push(""@);
    let out = out.push("| Driver | Contribution % | Delta |"@);
    let out = out.push("|---|---:|---:|"@);
    let out = write_contributions_lines(out, b.drivers@, b.drivers@.len() as int);
    let out = out.push(""@);
    let out = out.push("## Closure check"@);
    let out = out.push(""@);
    let out = out.push("- explained: "@ + b.explained@ + "% ("@ + b.explained_share@ + "%)"@);
    let out = out.push("- residual: "@ + b.residual_change@ + "% ("@ + b.residual_amount@ + ")."@);
    let out = if b.signals@.len() > 0 {
        let out = out.push(""@);
        let out = out.push("## Residual segments"@);
        let out = out.push(""@);
        let out = write_signals_lines(out, b.signals@, b.signals@.len() as int);
        out
    } else {
        out
    };
    out
}

/// All sections of a driver investigation.
pub fn write_investigate_brief(out: &mut Vec<String>, b: &InvestigateBrief)
    ensures
        text::views(final(out)@) == write_investigate_brief_lines(text::views(old(out)@), *b),
{
    say(out, "# Investigate Report".to_owned());
    say(out, "".to_owned());
    say(out, cat2("- Input: ", b.input.as_str()));
    say(out, cat5("## ", b.metric.as_str(), " change: ", b.change.as_str(), "%"));
    say(out, "".to_owned());
    let mut line = cat5("Window: `", write_date(b.windows.current_start).as_str(), "..", write_date(b.windows.current_end).as_str(), " vs ");
    line.append(write_date(b.windows.previous_start).as_str());
    line.append("..");
    line.append(write_date(b.windows.previous_end).as_str());
    line.append("`");
    say(out, line);
    say(out, "".to_owned());
    say(out, cat3("Decomposition mode: `", b.mode.as_str(), "`"));
    say(out, "".to_owned());
    say(out, "## Driver contributions".to_owned());
    say(out, "".to_owned());
    say(out, "| Driver | Contribution % | Delta |".to_owned());
    say(out, "|---|---:|---:|".to_owned());
    write_contributions(out, &b.drivers);
    say(out, "".to_owned());
    say(out, "## Closure check".to_owned());
    say(out, "".to_owned());
    say(out, cat5("- explained: ", b.explained.as_str(), "% (", b.explained_share.as_str(), "%)"));
    say(out, cat5("- residual: ", b.residual_change.as_str(), "% (", b.residual_amount.as_str(), ")."));
    if b.signals.len() > 0 {
        say(out, "".to_owned());
        say(out, "## Residual segments".to_owned());
        say(out, "".to_owned());
        write_signals(out, &b.signals);
    }
}

/// The decomposition as a page.
pub fn render_analyze_drivers_markdown(b: &DriversBrief) -> (r: String)
    ensures
        r@ == report::page(write_drivers_brief_lines(Seq::empty(), *b)),
{
    let mut out: Vec<String> = Vec::new();
    assert(text::views(out@) =~= Seq::empty());
    write_drivers_brief(&mut out, b);
    write_page(&out)
}

/// The driver investigation as a page.
pub fn render_investigate_markdown(b: &InvestigateBrief) -> (r: String)
    ensures
        r@ == report::page(write_investigate_brief_lines(Seq::empty(), *b)),
{
    let mut out: Vec<String> = Vec::new();
    assert(text::views(out@) =~= Seq::empty());
    write_investigate_brief(&mut out, b);
    write_page(&out)
}

// ---------------------------------------------------------------------------
// Laws
// ---------------------------------------------------------------------------

/// A row is among those of the windows, marked by the windows its day lies in.
pub open spec fn marks_row(found: Seq<WindowRow>, i: int, current: bool, previous: bool) -> bool {
    exists|k: int|
        0 <= k < found.len() && (#[trigger] found[k]).row == i && found[k].current == current
            && found[k].previous == previous
}

/// The rows of the windows are those whose day lies between the first and the
/// last day of a window, each marked with the windows it lies in, in the order
/// of the table.
pub proof fn law_window_rows_lie_in_their_windows(
    rows: Seq<Vec<String>>,
    date_idx: int,
    w: WindowSet,
    n: int,
)
    requires
        0 <= n <= rows.len() <= usize::MAX,
    ensures
        ({
            let found = rows_in_windows(rows, date_idx, w, n);
            &&& forall|k: int|
                0 <= k < found.len() ==> ({
                    let r = #[trigger] found[k];
                    let day = periods::cell_day(groups::cell(rows[r.row as int]@, date_idx));
                    &&& r.row < n
                    &&& r.current || r.previous
                    &&& day is Some
                    &&& r.current == (w.current_start.le(day->0) && day->0.le(w.current_end))
                    &&& r.previous == (w.previous_start.le(day->0) && day->0.le(w.previous_end))
                })
            &&& forall|i: int, j: int|
                0 <= i < j < found.len() ==> (#[trigger] found[i]).row < (#[trigger] found[j]).row
            &&& forall|i: int|
                0 <= i < n ==> ({
                    let day = periods::cell_day(groups::cell((#[trigger] rows[i])@, date_idx));
                    let current = day is Some && w.current_start.le(day->0) && day->0.le(
                        w.current_end,
                    );
                    let previous = day is Some && w.previous_start.le(day->0) && day->0.le(
                        w.previous_end,
                    );
                    current || previous ==> marks_row(found, i, current, previous)
                })
        }),
    decreases n,
{
    if n > 0 {
        law_window_rows_lie_in_their_windows(rows, date_idx, w, n - 1);
        let front = rows_in_windows(rows, date_idx, w, n - 1);
        let found = rows_in_windows(rows, date_idx, w, n);
        assert forall|k: int| 0 <= k < front.len() implies #[trigger] found[k] == front[k] by {}
        assert forall|i: int| 0 <= i < n implies ({
            let day = periods::cell_day(groups::cell((#[trigger] rows[i])@, date_idx));
            let current = day is Some && w.current_start.le(day->0) && day->0.le(w.current_end);
            let previous = day is Some && w.previous_start.le(day->0) && day->0.le(w.previous_end);
            current || previous ==> marks_row(found, i, current, previous)
        }) by {
            let day = periods::cell_day(groups::cell(rows[i]@, date_idx));
            let current = day is Some && w.current_start.le(day->0) && day->0.le(w.current_end);
            let previous = day is Some && w.previous_start.le(day->0) && day->0.le(w.previous_end);
            if current || previous {
                if i < n - 1 {
                    assert(marks_row(front, i, current, previous));
                    let k = choose|k: int|
                        0 <= k < front.len() && (#[trigger] front[k]).row == i && front[k].current
                            == current && front[k].previous == previous;
                    assert(found[k] == front[k]);
                } else {
                    assert(found[found.len() - 1].row == i);
                }
            }
        }
    }
}

proof fn lemma_keep_falls<T>(s: Seq<T>, p: spec_fn(T) -> bool, rank: spec_fn(T) -> int)
    requires
        forall|i: int, j: int|
            0 <= i < j < s.len() ==> rank(#[trigger] s[i]) >= rank(#[trigger] s[j]),
    ensures
        forall|i: int, j: int|
            0 <= i < j < list::keep(s, p).len() ==> rank(#[trigger] list::keep(s, p)[i]) >= rank(
                #[trigger] list::keep(s, p)[j],
            ),
    decreases s.len(),
{
    if s.len() > 0 {
        let front = s.drop_last();
        assert forall|i: int, j: int| 0 <= i < j < front.len() implies rank(#[trigger] front[i])
            >= rank(#[trigger] front[j]) by {
            assert(front[i] == s[i] && front[j] == s[j]);
        }
        lemma_keep_falls(front, p, rank);
        list::lemma_keep(front, p);
        let kept = list::keep(s, p);
        let kept_front = list::keep(front, p);
        assert forall|i: int, j: int| 0 <= i < j < kept.len() implies rank(#[trigger] kept[i])
            >= rank(#[trigger] kept[j]) by {
            assert(kept[i] == kept_front[i]);
            if j < kept_front.len() {
                assert(kept[j] == kept_front[j]);
            } else {
                assert(front.contains(kept_front[i]));
                let k = choose|k: int| 0 <= k < front.len() && front[k] == kept_front[i];
                assert(s[k] == kept_front[i] && s[s.len() - 1] == kept[j]);
            }
        }
    }
}

/// A contribution counts as telling, unless it is of a driver that counts
/// distinct values and changed by less than two.
pub open spec fn tells(c: Contribution) -> bool {
    c.agg != Some(DriverAgg::CountDistinct) || !(c.delta.abs_spec().rank() < (Num { bits: TWO }).rank())
}

/// The reported contributions are the weightiest, the weightiest first: those
/// that tell something where there are any, else all. One that is left out
/// weighs no more than any that is reported.
pub proof fn law_reported_contributions_weigh_most(all: Seq<Contribution>, top: int)
    requires
        0 <= top,
        forall|i: int|
            0 <= i < all.len() ==> !(#[trigger] all[i]).percent.is_nan() && !all[i].delta.is_nan(),
    ensures
        ({
            let r = reported(all, top);
            let some = exists|i: int| 0 <= i < all.len() && tells(#[trigger] all[i]);
            &&& r.len() <= top
            &&& forall|i: int|
                0 <= i < r.len() ==> all.contains(#[trigger] r[i]) && (some ==> tells(r[i]))
            &&& forall|i: int, j: int|
                0 <= i < j < r.len() ==> (#[trigger] r[i]).percent.abs_spec().rank() >= (
                #[trigger] r[j]).percent.abs_spec().rank()
            &&& forall|i: int, k: int|
                0 <= i < r.len() && 0 <= k < all.len() && (some ==> tells(all[k])) && !r.contains(
                    #[trigger] all[k],
                ) ==> r.len() == top && (#[trigger] r[i]).percent.abs_spec().rank()
                    >= all[k].percent.abs_spec().rank()
            &&& all.len() > 0 && top > 0 ==> r.len() > 0
        }),
{
    let rank = |c: Contribution| c.percent.abs_spec().rank();
    let sorted = order::sorted(all, weight_order());
    let telling = list::keep(sorted, is_telling());
    let r = reported(all, top);
    let some = exists|i: int| 0 <= i < all.len() && tells(#[trigger] all[i]);
    assert forall|a: Contribution| #[trigger] all.contains(a) implies !a.percent.is_nan()
        && !a.delta.is_nan() && is_telling()(a) == tells(a) by {
        let i = choose|i: int| 0 <= i < all.len() && all[i] == a;
        assert(!all[i].percent.is_nan());
    }
    order::lemma_sorted_falls(all, weight_order(), rank);
    order::lemma_sorted_contains(all, weight_order());
    order::lemma_sorted_permutation(all, weight_order());
    list::lemma_keep(sorted, is_telling());
    lemma_keep_falls(sorted, is_telling(), rank);
    if some {
        let i = choose|i: int| 0 <= i < all.len() && tells(#[trigger] all[i]);
        assert(all.contains(all[i]));
        assert(sorted.contains(all[i]));
        assert(telling.contains(all[i]));
    } else {
        if telling.len() > 0 {
            assert(sorted.contains(telling[0]));
            assert(all.contains(telling[0]));
            let k = choose|k: int| 0 <= k < all.len() && all[k] == telling[0];
            assert(tells(all[k]));
        }
    }
    let list = if telling.len() == 0 {
        sorted
    } else {
        telling
    };
    assert forall|i: int| 0 <= i < r.len() implies all.contains(#[trigger] r[i]) && (some ==> tells(
        r[i],
    )) by {
        assert(r[i] == list[i]);
        assert(sorted.contains(list[i]));
        assert(all.contains(list[i]));
    }
    assert forall|i: int, j: int| 0 <= i < j < r.len() implies rank(#[trigger] r[i]) >= rank(
        #[trigger] r[j],
    ) by {
        assert(r[i] == list[i] && r[j] == list[j]);
    }
    assert forall|i: int, k: int|
        0 <= i < r.len() && 0 <= k < all.len() && (some ==> tells(all[k])) && !r.contains(
            #[trigger] all[k],
        ) implies r.len() == top && rank(#[trigger] r[i]) >= rank(all[k]) by {
        assert(all.contains(all[k]));
        assert(sorted.contains(all[k]));
        assert(list.contains(all[k]));
        let m = choose|m: int| 0 <= m < list.len() && list[m] == all[k];
        if m < r.len() {
            assert(r[m] == all[k]);
        }
        assert(r[i] == list[i]);
    }
}

/// A driver is measured exactly where it sums or averages a column.
pub proof fn law_measured_drivers_sum_or_average(specs: Seq<DriverSpec>, n: int)
    requires
        0 <= n <= specs.len(),
    ensures
        forall|i: int|
            0 <= i < n && (#[trigger] specs[i]).col_idx is Some && (specs[i].agg == DriverAgg::Sum
                || specs[i].agg == DriverAgg::Mean) ==> measured(specs, n).contains(
                (specs[i].col_idx->0 as int, specs[i].agg),
            ),
        forall|k: int|
            0 <= k < measured(specs, n).len() ==> ({
                let m = #[trigger] measured(specs, n)[k];
                (m.1 == DriverAgg::Sum || m.1 == DriverAgg::Mean) && is_of_driver(m, specs, n)
            }),
    decreases n,
{
    if n > 0 {
        law_measured_drivers_sum_or_average(specs, n - 1);
        let front = measured(specs, n - 1);
        let all = measured(specs, n);
        assert forall|i: int|
            0 <= i < n && (#[trigger] specs[i]).col_idx is Some && (specs[i].agg == DriverAgg::Sum
                || specs[i].agg == DriverAgg::Mean) implies all.contains(
            (specs[i].col_idx->0 as int, specs[i].agg),
        ) by {
            let x = (specs[i].col_idx->0 as int, specs[i].agg);
            if i < n - 1 {
                assert(front.contains(x));
                let k = choose|k: int| 0 <= k < front.len() && front[k] == x;
                assert(all[k] == x);
            } else {
                assert(all[all.len() - 1] == x);
            }
        }
        assert forall|k: int| 0 <= k < all.len() implies ({
            let m = #[trigger] all[k];
            (m.1 == DriverAgg::Sum || m.1 == DriverAgg::Mean) && is_of_driver(m, specs, n)
        }) by {
            if k < front.len() {
                assert(all[k] == front[k]);
                let i = choose|i: int|
                    0 <= i < n - 1 && (#[trigger] specs[i]).col_idx is Some
                        && specs[i].col_idx->0 as int == all[k].0 && specs[i].agg == all[k].1;
                assert(specs[i].col_idx is Some);
            } else {
                assert(specs[n - 1].col_idx is Some);
            }
        }
    }
}

/// A measured column is that of a driver.
pub open spec fn is_of_driver(m: (int, DriverAgg), specs: Seq<DriverSpec>, n: int) -> bool {
    exists|i: int|
        0 <= i < n && (#[trigger] specs[i]).col_idx is Some && specs[i].col_idx->0 as int == m.0
            && specs[i].agg == m.1
}

/// The identity that is chosen is, of those that rest on at least twenty rows
/// and have a finite error, one with the smallest error, and that error is not
/// above the largest one that an identity may have. None is chosen only where
/// all those errors are above it.
pub proof fn law_the_closest_identity_is_chosen(fits: Seq<IdentityFit>)
    ensures
        match best_identity(fits) {
            Some(f) => {
                &&& fits.contains(f)
                &&& f.rows >= 20
                &&& f.error.magnitude() < crate::num::INFINITE
                &&& f.error.rank() <= (Num { bits: LARGEST_ERROR }).rank()
                &&& forall|i: int|
                    0 <= i < fits.len() && (#[trigger] fits[i]).rows >= 20
                        && fits[i].error.magnitude() < crate::num::INFINITE ==> f.error.rank()
                        <= fits[i].error.rank()
            },
            None => forall|i: int|
                0 <= i < fits.len() && (#[trigger] fits[i]).rows >= 20 && fits[i].error.magnitude()
                    < crate::num::INFINITE ==> fits[i].error.rank() > (Num {
                    bits: LARGEST_ERROR,
                }).rank(),
        },
{
    let sound = list::keep(fits, is_sound());
    let sorted = order::sorted(sound, fit_order());
    let rank = |f: IdentityFit| -f.error.rank();
    list::lemma_keep(fits, is_sound());
    assert forall|a: IdentityFit| #[trigger] sound.contains(a) implies !a.error.is_nan()
        && is_sound()(a) && fits.contains(a) by {
        let i = choose|i: int| 0 <= i < sound.len() && sound[i] == a;
        assert(is_sound()(sound[i]));
    }
    order::lemma_sorted_falls(sound, fit_order(), rank);
    order::lemma_sorted_contains(sound, fit_order());
    list::lemma_first_from(sorted, is_close(), 0);
    assert forall|i: int| 0 <= i < sorted.len() implies sound.contains(#[trigger] sorted[i]) by {
        assert(sorted.contains(sorted[i]));
    }
    assert forall|i: int|
        0 <= i < fits.len() && (#[trigger] fits[i]).rows >= 20 && fits[i].error.magnitude()
            < crate::num::INFINITE implies exists|k: int|
        0 <= k < sorted.len() && #[trigger] sorted[k] == fits[i] by {
        assert(fits.contains(fits[i]));
        assert(is_sound()(fits[i]));
        assert(sound.contains(fits[i]));
        assert(sorted.contains(fits[i]));
    }
    match list::first_from(sorted, is_close(), 0) {
        Some(k) => {
            if k > 0 {
                assert(rank(sorted[0]) >= rank(sorted[k]));
                assert(sound.contains(sorted[0]));
                assert(is_close()(sorted[0]));
            }
            assert forall|i: int|
                0 <= i < fits.len() && (#[trigger] fits[i]).rows >= 20 && fits[i].error.magnitude()
                    < crate::num::INFINITE implies sorted[k].error.rank()
                <= fits[i].error.rank() by {
                let m = choose|m: int| 0 <= m < sorted.len() && #[trigger] sorted[m] == fits[i];
                if m > 0 {
                    assert(rank(sorted[0]) >= rank(sorted[m]));
                }
            }
        },
        None => {
            assert forall|i: int|
                0 <= i < fits.len() && (#[trigger] fits[i]).rows >= 20 && fits[i].error.magnitude()
                    < crate::num::INFINITE implies fits[i].error.rank() > (Num {
                bits: LARGEST_ERROR,
            }).rank() by {
                let m = choose|m: int| 0 <= m < sorted.len() && #[trigger] sorted[m] == fits[i];
                assert(!is_close()(sorted[m]));
            }
        },
    }
}

/// The value that is told of a column has at least three rows, and no other
/// value of at least three rows scores higher; among equal ones it is the last.
pub proof fn law_the_strongest_value_is_told(values: Seq<ValueResidual>, n: int)
    requires
        0 <= n <= values.len(),
        forall|i: int| 0 <= i < values.len() ==> !(#[trigger] values[i]).score.is_nan(),
    ensures
        match strongest_value(values, n) {
            Some(b) => {
                &&& 0 <= b < n
                &&& values[b].count >= 3
                &&& forall|i: int|
                    0 <= i < n && (#[trigger] values[i]).count >= 3 ==> values[i].score.rank()
                        <= values[b].score.rank()
                &&& forall|i: int|
                    b < i < n && (#[trigger] values[i]).count >= 3 ==> values[i].score.rank()
                        < values[b].score.rank()
            },
            None => forall|i: int| 0 <= i < n ==> (#[trigger] values[i]).count < 3,
        },
    decreases n,
{
    if n > 0 {
        law_the_strongest_value_is_told(values, n - 1);
    }
}

/// The signals that are told are the strongest, the strongest first, and of
/// equally strong ones the one that comes first by name.
pub proof fn law_told_signals_are_the_strongest(signals: Seq<ResidualSignal>, top_n: int)
    requires
        0 <= top_n,
        forall|i: int| 0 <= i < signals.len() ==> !(#[trigger] signals[i]).score.is_nan(),
    ensures
        ({
            let told = crate::answers::at_most(order::sorted(signals, signal_order()), top_n);
            &&& order::takes_highest(
                told,
                signals,
                |s: ResidualSignal| s.score.rank(),
                top_n,
            )
            &&& order::falls_by_name(
                told,
                |s: ResidualSignal| s.score.rank(),
                |s: ResidualSignal| s.name@,
            )
        }),
{
    let rank = |s: ResidualSignal| s.score.rank();
    let name = |s: ResidualSignal| s.name@;
    let before = signal_order();
    assert forall|a: ResidualSignal| #[trigger] signals.contains(a) implies !a.score.is_nan() by {
        let i = choose|i: int| 0 <= i < signals.len() && signals[i] == a;
        assert(!signals[i].score.is_nan());
    }
    assert forall|a: ResidualSignal, b: ResidualSignal|
        signals.contains(a) && signals.contains(b) implies (#[trigger] before(a, b) <==> rank(a)
        > rank(b) || (rank(a) == rank(b) && order::text_less(name(a), name(b)))) by {}
    order::lemma_sorted_permutation(signals, before);
    order::lemma_takes_highest(signals, before, rank, top_n);
    order::lemma_falls_by_name(signals, before, rank, name);
}

/// The columns of which an identity is sought are those other than the metric
/// that hold at least twenty numbers in what is looked at of the two tables.
pub proof fn law_identities_are_sought_among_numbers(
    base: Seq<Vec<String>>,
    new: Seq<Vec<String>>,
    metric_idx: int,
    n: int,
)
    requires
        0 <= n,
    ensures
        forall|c: int| #[trigger]
            identity_columns(base, new, metric_idx, n).contains(c) <==> 0 <= c < n && c
                != metric_idx && numbers_in_both(base, new, c) >= 20,
    decreases n,
{
    if n > 0 {
        law_identities_are_sought_among_numbers(base, new, metric_idx, n - 1);
        let front = identity_columns(base, new, metric_idx, n - 1);
        let all = identity_columns(base, new, metric_idx, n);
        assert forall|c: int| #[trigger] all.contains(c) <==> 0 <= c < n && c != metric_idx
            && numbers_in_both(base, new, c) >= 20 by {
            if all.contains(c) {
                let k = choose|k: int| 0 <= k < all.len() && all[k] == c;
                if k < front.len() {
                    assert(front[k] == c);
                    assert(front.contains(c));
                }
            }
            if 0 <= c < n && c != metric_idx && numbers_in_both(base, new, c) >= 20 {
                if c < n - 1 {
                    assert(front.contains(c));
                    let k = choose|k: int| 0 <= k < front.len() && front[k] == c;
                    assert(all[k] == c);
                } else {
                    assert(all[all.len() - 1] == c);
                }
            }
        }
    }
}

/// Numbers are counted row by row: a further row counts exactly where its cell
/// is a number.
pub proof fn law_every_number_counts_once(rows: Seq<Vec<String>>, idx: int, n: int)
    requires
        0 <= n <= rows.len(),
        0 <= idx,
    ensures
        numbers_in(rows, idx, n) <= n,
        numbers_in(rows, idx, n) >= 0,
        numbers_in(rows, idx, n) == n <==> forall|k: int|
            0 <= k < n ==> idx < (#[trigger] rows[k])@.len() && numeric::is_numeric_cell(
                groups::cell(rows[k]@, idx),
            ),
        numbers_in(rows, idx, n) == 0 <==> forall|k: int|
            0 <= k < n ==> !(idx < (#[trigger] rows[k])@.len() && numeric::is_numeric_cell(
                groups::cell(rows[k]@, idx),
            )),
    decreases n,
{
    if n > 0 {
        law_every_number_counts_once(rows, idx, n - 1);
    }
}

/// A numeric column tells something of the residual exactly where enough pairs
/// are there and the correlation is finite and at least as large as a weak one;
/// it scores by its size.
pub proof fn law_weak_correlations_tell_nothing(
    name: Seq<char>,
    pairs: usize,
    correlation: Num,
    written: Seq<char>,
)
    ensures
        match correlation_signal(name, pairs, correlation, written) {
            Some(s) => pairs >= ENOUGH_PAIRS && correlation.magnitude() >= WEAK_CORRELATION
                && correlation.magnitude() < crate::num::INFINITE && s.name == name
                && s.score.rank() == correlation.magnitude(),
            None => pairs < ENOUGH_PAIRS || correlation.magnitude() < WEAK_CORRELATION
                || correlation.magnitude() >= crate::num::INFINITE,
        },
{
}

/// What is told of a column of words is the value with the highest score among
/// those of at least three rows, and only where its mean residual is a thousand
/// or more.
pub proof fn law_told_values_leave_much_over(name: Seq<char>, values: Seq<ValueResidual>)
    requires
        forall|i: int|
            0 <= i < values.len() ==> !(#[trigger] values[i]).score.is_nan()
                && !values[i].mean.is_nan(),
    ensures
        match category_signal(name, values) {
            Some(s) => exists|b: int|
                0 <= b < values.len() && s.score == (#[trigger] values[b]).score && values[b].count
                    >= 3 && values[b].mean.magnitude() >= THOUSAND && s.name == name + " = "@
                    + values[b].value@ && forall|i: int|
                    0 <= i < values.len() && (#[trigger] values[i]).count >= 3
                        ==> values[i].score.rank() <= values[b].score.rank(),
            None => true,
        },
{
    law_the_strongest_value_is_told(values, values.len() as int);
    if let Some(b) = strongest_value(values, values.len() as int) {
        assert(!values[b].mean.is_nan());
    }
}

/// Signals are looked for in the columns that are not excluded and whose names
/// speak of no date or time.
pub proof fn law_signals_are_sought_in_other_columns(
    name: Seq<char>,
    idx: usize,
    excluded: Seq<usize>,
)
    ensures
        is_signal_column(name, idx, excluded) <==> !(excluded.contains(idx) || scan::contains(
            text::lower(name),
            "date"@,
        ) || scan::contains(text::lower(name), "time"@)),
{
}

} // verus!
