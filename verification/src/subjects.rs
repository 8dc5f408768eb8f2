//! What a comparison looks at: its metric, its drivers, and the rows on both
//! of its sides.

use vstd::prelude::*;

use crate::args::{
    AnalyzeDriversArgs, InvestigateArgs, InvestigateWorkflowArgs, PeriodPreset, TimeGrain,
};
use crate::columns;
use crate::columns::{
    find_column, find_date_column, find_query_date_column, require_date_column, NamedColumn,
};
use crate::dates;
use crate::dates::Date;
use crate::decomposition;
use crate::decomposition::{
    check_investigate_options, check_window_rows, find_window_rows, WindowRow,
};
use crate::digits;
use crate::drivers;
use crate::drivers::{
    auto_select_driver_specs, parse_investigate_driver, select_driver_specs_by_preset,
    settle_driver_specs, DriverSpec, DriverView,
};
use crate::frames;
use crate::frames::{
    check_frames, check_query_windows, check_rows, check_same_headers, files_summary, query_labels,
    split_rows, windows_summary,
};
use crate::groups;
use crate::list;
use crate::periods;
use crate::periods::{
    parse_period_cfg_from_driver_args, parse_period_cfg_from_investigate,
    parse_period_cfg_from_investigate_workflow, WindowSet,
};
use crate::planner;
use crate::scan;
use crate::text;

verus! {

// ---------------------------------------------------------------------------
// A driver investigation
// ---------------------------------------------------------------------------

/// The columns and windows of a driver investigation.
#[derive(Clone, Debug)]
pub struct InvestigationSubject {
    pub metric: NamedColumn,
    pub date: NamedColumn,
    pub windows: WindowSet,
}

/// A subject in views.
pub struct SubjectView {
    pub metric: (Seq<char>, int),
    pub date: (Seq<char>, int),
    pub windows: WindowSet,
}

impl View for InvestigationSubject {
    type V = SubjectView;

    open spec fn view(&self) -> SubjectView {
        SubjectView { metric: self.metric@, date: self.date@, windows: self.windows }
    }
}

/// A search for a subject in views.
pub open spec fn subject_result(r: Option<Result<InvestigationSubject, String>>) -> Option<
    Result<SubjectView, Seq<char>>,
> {
    match r {
        Some(Ok(s)) => Some(Ok(s@)),
        Some(Err(e)) => Some(Err(e@)),
        None => None,
    }
}

/// The subject of a driver investigation, or the first thing that is wrong
/// with what is asked for.
pub open spec fn investigation_subject(
    args: InvestigateArgs,
    headers: Seq<Seq<char>>,
    rows: Seq<Vec<String>>,
    today: Date,
) -> Option<Result<SubjectView, Seq<char>>> {
    match decomposition::option_error(args) {
        Some(e) => Some(Err(e)),
        None => match columns::meant_column(headers, args.metric@) {
            Err(e) => Some(Err(e)),
            Ok(metric) => if rows.len() == 0 {
                Some(Err("input CSV has no rows"@))
            } else {
                match columns::date_column(
                    headers,
                    rows,
                    planner::optional_text(args.date_column),
                    columns::no_date_text(),
                ) {
                    None => None,
                    Some(Err(e)) => Some(Err(e)),
                    Some(Ok(date)) => match periods::described_windows(
                        periods::investigate_flags(args),
                        ""@,
                        Some(TimeGrain::Month),
                        PeriodPreset::Last,
                        today,
                    ) {
                        None => None,
                        Some(Err(e)) => Some(Err(e)),
                        Some(Ok(windows)) => Some(Ok(SubjectView { metric, date, windows })),
                    },
                }
            },
        },
    }
}

/// Settles the columns and the windows of a driver investigation. `None` where
/// a cell of the table or a window outside the calendar keeps it from an answer.
pub fn locate_investigation(
    args: &InvestigateArgs,
    headers: &[String],
    rows: &Vec<Vec<String>>,
    today: Date,
) -> (r: Option<Result<InvestigationSubject, String>>)
    requires
        today.is_valid(),
    ensures
        subject_result(r) == investigation_subject(*args, text::views(headers@), rows@, today),
{
    match check_investigate_options(args) {
        Ok(_) => {},
        Err(e) => {
            return Some(Err(e));
        },
    }
    let metric = match find_column(headers, args.metric.as_str()) {
        Ok(c) => c,
        Err(e) => {
            return Some(Err(e));
        },
    };
    match check_rows(rows.len()) {
        Ok(_) => {},
        Err(e) => {
            return Some(Err(e));
        },
    }
    let date = match find_date_column(headers, rows, &args.date_column) {
        Some(Ok(c)) => c,
        Some(Err(e)) => {
            return Some(Err(e));
        },
        None => {
            return None;
        },
    };
    match parse_period_cfg_from_investigate(args, today) {
        Some(Ok(windows)) => Some(Ok(InvestigationSubject { metric, date, windows })),
        Some(Err(e)) => Some(Err(e)),
        None => None,
    }
}

/// The drivers that the first `n` names mean, or the first failure.
pub open spec fn named_drivers(names: Seq<String>, headers: Seq<Seq<char>>, n: int) -> Result<
    Seq<DriverView>,
    Seq<char>,
>
    decreases n,
{
    if n <= 0 {
        Ok(Seq::empty())
    } else {
        match named_drivers(names, headers, n - 1) {
            Err(e) => Err(e),
            Ok(front) => match drivers::read_driver(names[n - 1]@, headers) {
                Ok(d) => Ok(front.push(d)),
                Err(e) => Err(e),
            },
        }
    }
}

proof fn lemma_named_failure(names: Seq<String>, headers: Seq<Seq<char>>, k: int, n: int)
    requires
        0 <= k <= n,
        named_drivers(names, headers, k) is Err,
    ensures
        named_drivers(names, headers, n) == named_drivers(names, headers, k),
    decreases n,
{
    if k < n {
        lemma_named_failure(names, headers, k, n - 1);
    }
}

fn read_named_drivers(names: &Vec<String>, headers: &[String]) -> (r: Result<
    Vec<DriverSpec>,
    String,
>)
    ensures
        match r {
            Ok(v) => named_drivers(names@, text::views(headers@), names@.len() as int) == Ok::<
                Seq<DriverView>,
                Seq<char>,
            >(drivers::driver_views(v@)),
            Err(e) => named_drivers(names@, text::views(headers@), names@.len() as int) == Err::<
                Seq<DriverView>,
                Seq<char>,
            >(e@),
        },
{
    let mut out: Vec<DriverSpec> = Vec::new();
    let mut i: usize = 0;
    assert(drivers::driver_views(out@) =~= Seq::empty());
    while i < names.len()
        invariant
            i <= names.len(),
            named_drivers(names@, text::views(headers@), i as int) == Ok::<
                Seq<DriverView>,
                Seq<char>,
            >(drivers::driver_views(out@)),
        decreases names.len() - i,
    {
        let ghost before = drivers::driver_views(out@);
        match parse_investigate_driver(names[i].as_str(), headers) {
            Ok(d) => {
                let ghost view = d@;
                out.push(d);
                assert(drivers::driver_views(out@) =~= before.push(view));
            },
            Err(e) => {
                proof {
                    lemma_named_failure(
                        names@,
                        text::views(headers@),
                        i + 1,
                        names@.len() as int,
                    );
                }
                return Err(e);
            },
        }
        i += 1;
    }
    Ok(out)
}

/// The drivers are those that are named, else those of the preset, else those
/// that are chosen automatically.
pub open spec fn is_driver_choice(
    specs: Seq<DriverView>,
    args: InvestigateArgs,
    headers: Seq<Seq<char>>,
    rows: Seq<Vec<String>>,
    subject: SubjectView,
    numeric: Seq<(Seq<char>, int)>,
) -> bool {
    if args.drivers@.len() > 0 {
        named_drivers(args.drivers@, headers, args.drivers@.len() as int) == Ok::<
            Seq<DriverView>,
            Seq<char>,
        >(specs)
    } else {
        match args.driver_preset {
            Some(preset) => drivers::is_preset_choice(
                specs,
                preset,
                args,
                headers,
                rows,
                subject.metric.1,
                subject.date.1,
                numeric,
            ),
            None => drivers::is_auto_choice(
                specs,
                args,
                headers,
                rows,
                subject.metric.1,
                subject.date.1,
                numeric,
            ),
        }
    }
}

/// What is left of drivers after the filters, each once.
pub open spec fn left_over(specs: Seq<DriverView>, args: InvestigateArgs) -> Seq<DriverView> {
    drivers::settled_drivers(
        specs,
        text::views(args.driver_include@),
        text::views(args.driver_exclude@),
    )
}

/// Chooses the drivers of an investigation. `numeric` are the numeric columns
/// that go along with the metric.
pub fn choose_drivers(
    args: &InvestigateArgs,
    headers: &[String],
    rows: &Vec<Vec<String>>,
    subject: &InvestigationSubject,
    numeric: &Vec<(String, usize)>,
) -> (r: Result<Vec<DriverSpec>, String>)
    ensures
        match r {
            Ok(kept) => kept@.len() > 0 && exists|specs: Seq<DriverView>| #[trigger]
                is_driver_choice(
                    specs,
                    *args,
                    text::views(headers@),
                    rows@,
                    subject@,
                    drivers::column_views(numeric@),
                ) && drivers::driver_views(kept@) == left_over(specs, *args),
            Err(e) => if args.drivers@.len() > 0 && named_drivers(
                args.drivers@,
                text::views(headers@),
                args.drivers@.len() as int,
            ) is Err {
                named_drivers(args.drivers@, text::views(headers@), args.drivers@.len() as int)
                    == Err::<Seq<DriverView>, Seq<char>>(e@)
            } else {
                e@ == "no usable driver columns found; pass --drivers explicitly"@
                    && exists|specs: Seq<DriverView>| #[trigger]
                    is_driver_choice(
                        specs,
                        *args,
                        text::views(headers@),
                        rows@,
                        subject@,
                        drivers::column_views(numeric@),
                    ) && left_over(specs, *args).len() == 0
            },
        },
{
    let specs = if args.drivers.len() > 0 {
        match read_named_drivers(&args.drivers, headers) {
            Ok(v) => v,
            Err(e) => {
                return Err(e);
            },
        }
    } else {
        match args.driver_preset {
            Some(preset) => select_driver_specs_by_preset(
                args,
                preset,
                headers,
                rows,
                subject.metric.idx,
                subject.date.idx,
                numeric,
            ),
            None => auto_select_driver_specs(
                args,
                headers,
                rows,
                subject.metric.idx,
                subject.date.idx,
                numeric,
            ),
        }
    };
    let ghost chosen = drivers::driver_views(specs@);
    assert(is_driver_choice(
        chosen,
        *args,
        text::views(headers@),
        rows@,
        subject@,
        drivers::column_views(numeric@),
    ));
    let r = settle_driver_specs(
        specs,
        args.driver_include.as_slice(),
        args.driver_exclude.as_slice(),
    );
    proof {
        match &r {
            Ok(kept) => {
                assert(drivers::driver_views(kept@) == left_over(chosen, *args));
                assert(drivers::driver_views(kept@).len() == kept@.len());
            },
            Err(_) => {
                assert(left_over(chosen, *args).len() == 0);
            },
        }
    }
    r
}

/// The rows of a driver investigation: those in one of the windows. `None`
/// where the date of a row cannot be told.
pub fn find_investigated_rows(rows: &Vec<Vec<String>>, subject: &InvestigationSubject) -> (r:
    Option<Result<Vec<WindowRow>, String>>)
    ensures
        ({
            let found = decomposition::rows_in_windows(
                rows@,
                subject@.date.1,
                subject@.windows,
                rows@.len() as int,
            );
            let c = list::keep(found, decomposition::in_current()).len();
            let p = list::keep(found, decomposition::in_previous()).len();
            match r {
                None => decomposition::dates_blocked(rows@, subject@.date.1, rows@.len() as int),
                Some(Ok(v)) => !decomposition::dates_blocked(
                    rows@,
                    subject@.date.1,
                    rows@.len() as int,
                ) && c > 0 && p > 0 && v@ == found,
                Some(Err(e)) => !decomposition::dates_blocked(
                    rows@,
                    subject@.date.1,
                    rows@.len() as int,
                ) && (c == 0 || p == 0) && e@
                    == "period windows contain no comparable rows (current="@ + digits::decimal(c)
                    + ", previous="@ + digits::decimal(p) + ")"@,
            }
        }),
{
    match find_window_rows(rows, subject.date.idx, subject.windows) {
        None => None,
        Some(found) => match check_window_rows(&found) {
            Ok(_) => Some(Ok(found)),
            Err(e) => Some(Err(e)),
        },
    }
}

// ---------------------------------------------------------------------------
// A decomposition
// ---------------------------------------------------------------------------

/// The rows on both sides of a decomposition, its metric, and what it is about.
#[derive(Debug)]
pub struct DriverHalves {
    pub base: Vec<usize>,
    pub new: Vec<usize>,
    pub metric: NamedColumn,
    pub summary: String,
}

/// The halves of a decomposition in views.
pub struct HalvesView {
    pub base: Seq<usize>,
    pub new: Seq<usize>,
    pub metric: (Seq<char>, int),
    pub summary: Seq<char>,
}

impl View for DriverHalves {
    type V = HalvesView;

    open spec fn view(&self) -> HalvesView {
        HalvesView {
            base: self.base@,
            new: self.new@,
            metric: self.metric@,
            summary: self.summary@,
        }
    }
}

/// Halves in views.
pub open spec fn halves_result(r: Option<Result<DriverHalves, String>>) -> Option<
    Result<HalvesView, Seq<char>>,
> {
    match r {
        Some(Ok(h)) => Some(Ok(h@)),
        Some(Err(e)) => Some(Err(e@)),
        None => None,
    }
}

/// Two windows as the subject of a comparison, the current one first.
pub open spec fn windows_text(w: WindowSet) -> Seq<char> {
    dates::date_text(w.current_start) + ".."@ + dates::date_text(w.current_end) + " vs "@
        + dates::date_text(w.previous_start) + ".."@ + dates::date_text(w.previous_end)
}

/// One table split by its date column: the rows of the previous window against
/// those of the current one.
pub open spec fn driver_halves(
    args: AnalyzeDriversArgs,
    headers: Seq<Seq<char>>,
    rows: Seq<Vec<String>>,
    today: Date,
) -> Option<Result<HalvesView, Seq<char>>> {
    match columns::splitting_column(headers, planner::optional_text(args.date_column)) {
        Err(e) => Some(Err(e)),
        Ok(date) => match periods::described_windows(
            periods::driver_flags(args),
            ""@,
            Some(TimeGrain::Month),
            PeriodPreset::Last,
            today,
        ) {
            None => None,
            Some(Err(e)) => Some(Err(e)),
            Some(Ok(w)) => if decomposition::dates_blocked(rows, date.1, rows.len() as int) {
                None
            } else {
                let found = decomposition::rows_in_windows(rows, date.1, w, rows.len() as int);
                let base = frames::base_rows(found, found.len() as int);
                let new = frames::new_rows(found, found.len() as int);
                if base.len() == 0 || new.len() == 0 {
                    Some(Err("analyze-drivers needs non-empty base and new frames"@))
                } else {
                    match columns::meant_column(headers, args.metric@) {
                        Err(e) => Some(Err(e)),
                        Ok(metric) => Some(
                            Ok(HalvesView { base, new, metric, summary: windows_text(w) }),
                        ),
                    }
                }
            },
        },
    }
}

/// Splits one table by its date column. `None` where a date cannot be told or
/// a window lies outside the calendar.
pub fn split_driver_table(
    args: &AnalyzeDriversArgs,
    headers: &[String],
    rows: &Vec<Vec<String>>,
    today: Date,
) -> (r: Option<Result<DriverHalves, String>>)
    requires
        today.is_valid(),
    ensures
        halves_result(r) == driver_halves(*args, text::views(headers@), rows@, today),
{
    let date = match require_date_column(headers, &args.date_column) {
        Ok(c) => c,
        Err(e) => {
            return Some(Err(e));
        },
    };
    let windows = match parse_period_cfg_from_driver_args(args, today) {
        Some(Ok(w)) => w,
        Some(Err(e)) => {
            return Some(Err(e));
        },
        None => {
            return None;
        },
    };
    let found = match find_window_rows(rows, date.idx, windows) {
        Some(v) => v,
        None => {
            return None;
        },
    };
    let (base, new) = split_rows(&found);
    match check_frames(base.len(), new.len()) {
        Ok(_) => {},
        Err(e) => {
            return Some(Err(e));
        },
    }
    match find_column(headers, args.metric.as_str()) {
        Ok(metric) => Some(
            Ok(DriverHalves { base, new, metric, summary: windows_summary(windows) }),
        ),
        Err(e) => Some(Err(e)),
    }
}

/// Holds two tables against each other: gives the metric, and what the
/// decomposition is about.
pub fn match_driver_tables(
    args: &AnalyzeDriversArgs,
    headers: &Vec<String>,
    rows: usize,
    input_new: &str,
    headers_new: &Vec<String>,
    rows_new: usize,
) -> (r: Result<(NamedColumn, String), String>)
    ensures
        match r {
            Ok(m) => text::views(headers@) == text::views(headers_new@) && rows > 0 && rows_new > 0
                && columns::meant_column(text::views(headers@), args.metric@) == Ok::<
                (Seq<char>, int),
                Seq<char>,
            >(m.0@) && m.1@ == "base="@ + args.input@ + " new="@ + input_new@,
            Err(e) => if text::views(headers@) != text::views(headers_new@) {
                e@ == "input and input-new must have identical headers"@
            } else if rows == 0 || rows_new == 0 {
                e@ == "analyze-drivers needs non-empty base and new frames"@
            } else {
                columns::meant_column(text::views(headers@), args.metric@) == Err::<
                    (Seq<char>, int),
                    Seq<char>,
                >(e@)
            },
        },
{
    match check_same_headers(headers, headers_new) {
        Ok(_) => {},
        Err(e) => {
            return Err(e);
        },
    }
    match check_frames(rows, rows_new) {
        Ok(_) => {},
        Err(e) => {
            return Err(e);
        },
    }
    match find_column(headers.as_slice(), args.metric.as_str()) {
        Ok(metric) => Ok((metric, files_summary(args.input.as_str(), input_new))),
        Err(e) => Err(e),
    }
}

// ---------------------------------------------------------------------------
// What a query returned
// ---------------------------------------------------------------------------

/// The rows of a query on both sides of an investigation, with their labels.
#[derive(Debug)]
pub struct QueryHalves {
    pub base: Vec<usize>,
    pub new: Vec<usize>,
    pub base_label: String,
    pub new_label: String,
}

/// The halves of a query in views.
pub struct QueryView {
    pub base: Seq<usize>,
    pub new: Seq<usize>,
    pub base_label: Seq<char>,
    pub new_label: Seq<char>,
}

impl View for QueryHalves {
    type V = QueryView;

    open spec fn view(&self) -> QueryView {
        QueryView {
            base: self.base@,
            new: self.new@,
            base_label: self.base_label@,
            new_label: self.new_label@,
        }
    }
}

/// Halves of a query in views.
pub open spec fn query_result(r: Option<Result<QueryHalves, String>>) -> Option<
    Result<QueryView, Seq<char>>,
> {
    match r {
        Some(Ok(h)) => Some(Ok(h@)),
        Some(Err(e)) => Some(Err(e@)),
        None => None,
    }
}

pub open spec fn window_label(date: Seq<char>, side: Seq<char>, start: Date, end: Date) -> Seq<
    char,
> {
    "postgres query ("@ + date + side + dates::date_text(start) + ".."@ + dates::date_text(end)
}

/// The rows that a query returned, split by their dates. The date column is
/// told from the rows of the sample, and its name is then looked up without
/// blanks around it: that column is the one that is read.
pub open spec fn query_halves(
    args: InvestigateWorkflowArgs,
    headers: Seq<Seq<char>>,
    sample: Seq<Vec<String>>,
    rows: Seq<Vec<String>>,
    today: Date,
) -> Option<Result<QueryView, Seq<char>>> {
    match columns::date_column(
        headers,
        sample,
        planner::optional_text(args.date_column),
        columns::no_query_date_text(),
    ) {
        None => None,
        Some(Err(e)) => Some(Err(e)),
        Some(Ok(date)) => match periods::described_windows(
            periods::workflow_flags(args),
            ""@,
            Some(TimeGrain::Month),
            PeriodPreset::Last,
            today,
        ) {
            None => None,
            Some(Err(e)) => Some(Err(e)),
            Some(Ok(w)) => match columns::meant_column(headers, date.0) {
                Err(e) => Some(Err(e)),
                Ok(read) => if decomposition::dates_blocked(rows, read.1, rows.len() as int) {
                    None
                } else {
                    let found = decomposition::rows_in_windows(rows, read.1, w, rows.len() as int);
                    let base = frames::base_rows(found, found.len() as int);
                    let new = frames::new_rows(found, found.len() as int);
                    if base.len() == 0 || new.len() == 0 {
                        Some(
                            Err(
                                "period windows contain no comparable rows from postgres query (previous="@
                                    + digits::decimal(base.len()) + ", current="@ + digits::decimal(
                                    new.len(),
                                ) + ")"@,
                            ),
                        )
                    } else {
                        Some(
                            Ok(
                                QueryView {
                                    base,
                                    new,
                                    base_label: window_label(
                                        date.0,
                                        ") previous window "@,
                                        w.previous_start,
                                        w.previous_end,
                                    ),
                                    new_label: window_label(
                                        date.0,
                                        ") current window "@,
                                        w.current_start,
                                        w.current_end,
                                    ),
                                },
                            ),
                        )
                    }
                },
            },
        },
    }
}

/// Splits the rows that a query returned by their dates. `None` where a date
/// cannot be told or a window lies outside the calendar.
pub fn split_query_rows(
    args: &InvestigateWorkflowArgs,
    headers: &[String],
    sample: &Vec<Vec<String>>,
    rows: &Vec<Vec<String>>,
    today: Date,
) -> (r: Option<Result<QueryHalves, String>>)
    requires
        today.is_valid(),
    ensures
        query_result(r) == query_halves(*args, text::views(headers@), sample@, rows@, today),
{
    let date = match find_query_date_column(headers, sample, &args.date_column) {
        Some(Ok(c)) => c,
        Some(Err(e)) => {
            return Some(Err(e));
        },
        None => {
            return None;
        },
    };
    let windows = match parse_period_cfg_from_investigate_workflow(args, today) {
        Some(Ok(w)) => w,
        Some(Err(e)) => {
            return Some(Err(e));
        },
        None => {
            return None;
        },
    };
    let read = match find_column(headers, date.name.as_str()) {
        Ok(c) => c,
        Err(e) => {
            return Some(Err(e));
        },
    };
    let found = match find_window_rows(rows, read.idx, windows) {
        Some(v) => v,
        None => {
            return None;
        },
    };
    let (base, new) = split_rows(&found);
    match check_query_windows(base.len(), new.len()) {
        Ok(_) => {},
        Err(e) => {
            return Some(Err(e));
        },
    }
    let (base_label, new_label) = query_labels(date.name.as_str(), windows);
    Some(Ok(QueryHalves { base, new, base_label, new_label }))
}

/// What a query returned is split by its windows: every row of the base lies in
/// the previous window and every row of the other half in the current one, the
/// first and the last day included; and the labels tell those days.
pub proof fn law_query_halves_lie_in_their_windows(
    args: InvestigateWorkflowArgs,
    headers: Seq<Seq<char>>,
    sample: Seq<Vec<String>>,
    rows: Seq<Vec<String>>,
    today: Date,
    v: QueryView,
)
    requires
        rows.len() <= usize::MAX,
        query_halves(args, headers, sample, rows, today) == Some(Ok::<QueryView, Seq<char>>(v)),
    ensures
        exists|w: WindowSet, date: int| #[trigger]
            halves_lie_in(v.base, v.new, rows, date, w) && tells_days(
                v.base_label,
                w.previous_start,
                w.previous_end,
            ) && tells_days(v.new_label, w.current_start, w.current_end),
{
    let date = columns::date_column(
        headers,
        sample,
        planner::optional_text(args.date_column),
        columns::no_query_date_text(),
    )->0->Ok_0;
    let w = periods::described_windows(
        periods::workflow_flags(args),
        ""@,
        Some(TimeGrain::Month),
        PeriodPreset::Last,
        today,
    )->0->Ok_0;
    let read = columns::meant_column(headers, date.0)->Ok_0;
    lemma_halves(rows, read.1, w);
    lemma_label(date.0, ") previous window "@, w.previous_start, w.previous_end);
    lemma_label(date.0, ") current window "@, w.current_start, w.current_end);
    assert(halves_lie_in(v.base, v.new, rows, read.1, w));
}

proof fn lemma_label(date: Seq<char>, side: Seq<char>, start: Date, end: Date)
    ensures
        tells_days(window_label(date, side, start, end), start, end),
{
    let label = window_label(date, side, start, end);
    let days = dates::date_text(start) + ".."@ + dates::date_text(end);
    let at = label.len() - days.len();
    assert(label.subrange(at, label.len() as int) =~= days);
    assert(scan::occurs_at(label, days, at));
}

/// A label tells the first and the last day of a window.
pub open spec fn tells_days(label: Seq<char>, start: Date, end: Date) -> bool {
    scan::contains(label, dates::date_text(start) + ".."@ + dates::date_text(end))
}

/// The rows of one half lie in the previous window, those of the other in the
/// current one.
pub open spec fn halves_lie_in(
    base: Seq<usize>,
    new: Seq<usize>,
    rows: Seq<Vec<String>>,
    date: int,
    w: WindowSet,
) -> bool {
    &&& forall|k: int|
        0 <= k < base.len() ==> ({
            let day = periods::cell_day(groups::cell(rows[#[trigger] base[k] as int]@, date));
            day is Some && w.previous_start.le(day->0) && day->0.le(w.previous_end)
        })
    &&& forall|k: int|
        0 <= k < new.len() ==> ({
            let day = periods::cell_day(groups::cell(rows[#[trigger] new[k] as int]@, date));
            day is Some && w.current_start.le(day->0) && day->0.le(w.current_end)
        })
}

proof fn lemma_halves(rows: Seq<Vec<String>>, date: int, w: WindowSet)
    requires
        rows.len() <= usize::MAX,
    ensures
        ({
            let found = decomposition::rows_in_windows(rows, date, w, rows.len() as int);
            halves_lie_in(
                frames::base_rows(found, found.len() as int),
                frames::new_rows(found, found.len() as int),
                rows,
                date,
                w,
            )
        }),
{
    let found = decomposition::rows_in_windows(rows, date, w, rows.len() as int);
    let base = |r: WindowRow| r.previous;
    let new = |r: WindowRow| !r.previous && r.current;
    decomposition::law_window_rows_lie_in_their_windows(rows, date, w, rows.len() as int);
    frames::law_halves_hold_the_rows_of_their_window(found, found.len() as int);
    assert(found.take(found.len() as int) =~= found);
    list::lemma_keep(found, base);
    list::lemma_keep(found, new);
    let b = frames::base_rows(found, found.len() as int);
    let n = frames::new_rows(found, found.len() as int);
    assert forall|k: int| 0 <= k < b.len() implies ({
        let day = periods::cell_day(groups::cell(rows[#[trigger] b[k] as int]@, date));
        day is Some && w.previous_start.le(day->0) && day->0.le(w.previous_end)
    }) by {
        let r = list::keep(found, base)[k];
        assert(b[k] == r.row);
        assert(found.contains(r) && base(r));
        let i = choose|i: int| 0 <= i < found.len() && found[i] == r;
        assert(found[i].previous);
    }
    assert forall|k: int| 0 <= k < n.len() implies ({
        let day = periods::cell_day(groups::cell(rows[#[trigger] n[k] as int]@, date));
        day is Some && w.current_start.le(day->0) && day->0.le(w.current_end)
    }) by {
        let r = list::keep(found, new)[k];
        assert(n[k] == r.row);
        assert(found.contains(r) && new(r));
        let i = choose|i: int| 0 <= i < found.len() && found[i] == r;
        assert(found[i].current);
    }
}

/// A table is split in two by its windows: the rows of the base lie in the
/// previous window, those of the other half in the current one, and neither half
/// is empty.
pub proof fn law_driver_halves_lie_in_their_windows(
    args: AnalyzeDriversArgs,
    headers: Seq<Seq<char>>,
    rows: Seq<Vec<String>>,
    today: Date,
    v: HalvesView,
)
    requires
        rows.len() <= usize::MAX,
        driver_halves(args, headers, rows, today) == Some(Ok::<HalvesView, Seq<char>>(v)),
    ensures
        v.base.len() > 0 && v.new.len() > 0,
        exists|w: WindowSet, date: int| #[trigger]
            halves_lie_in(v.base, v.new, rows, date, w) && v.summary == windows_text(w),
{
    let date = columns::splitting_column(headers, planner::optional_text(args.date_column))->Ok_0;
    let w = periods::described_windows(
        periods::driver_flags(args),
        ""@,
        Some(TimeGrain::Month),
        PeriodPreset::Last,
        today,
    )->0->Ok_0;
    lemma_halves(rows, date.1, w);
    assert(halves_lie_in(v.base, v.new, rows, date.1, w));
}

/// The drivers that are named are read in their order, one for each name, and a
/// name that cannot be read is refused.
pub proof fn law_named_drivers_are_read_in_order(
    names: Seq<String>,
    headers: Seq<Seq<char>>,
    n: int,
)
    requires
        0 <= n <= names.len(),
    ensures
        match named_drivers(names, headers, n) {
            Ok(ds) => ds.len() == n && forall|i: int|
                0 <= i < n ==> drivers::read_driver((#[trigger] names[i])@, headers) == Ok::<
                    DriverView,
                    Seq<char>,
                >(ds[i]),
            Err(_) => exists|i: int|
                0 <= i < n && drivers::read_driver((#[trigger] names[i])@, headers) is Err,
        },
    decreases n,
{
    if n > 0 {
        law_named_drivers_are_read_in_order(names, headers, n - 1);
    }
}

} // verus!
