//! Configuration files: which one is read, and how its values join the options.

use vstd::prelude::*;

use crate::args;
use crate::args::{
    parse_backend_arg_from_str, parse_investigate_output_format_from_str, parse_mode_arg_from_str,
    parse_period_preset_from_str, parse_planner_from_str, parse_postgres_ssl_mode_from_str,
    parse_time_grain_from_str, BackendArg, InvestigateOutputFormat, InvestigateWorkflowArgs,
    InvestigationPlanner, PostgresSslMode,
};
use crate::list;
use crate::num::Num;
use crate::text;
use crate::text::{blank, eq_ignore_case, trimmed};

verus! {

/// The bit pattern of 5, the contribution below which segments are left out by default.
pub const DEFAULT_CONTRIBUTION: u64 = 0x4014_0000_0000_0000;

/// The bit pattern of the distance from 1 to the next binary64 value.
pub const EPSILON: u64 = 0x3cb0_0000_0000_0000;

/// The values of an investigation's configuration file.
#[derive(Clone, Debug)]
pub struct InvestigateConfigEntry {
    pub question: Option<String>,
    pub mode: Option<String>,
    pub base: Option<String>,
    pub new: Option<String>,
    pub postgres_url: Option<String>,
    pub postgres_ssl_mode: Option<String>,
    pub postgres_ca_file: Option<String>,
    pub query: Option<String>,
    pub query_file: Option<String>,
    pub metric: Option<String>,
    pub date_column: Option<String>,
    pub time_grain: Option<String>,
    pub period: Option<String>,
    pub anchor_date: Option<String>,
    pub current_start: Option<String>,
    pub current_end: Option<String>,
    pub previous_start: Option<String>,
    pub previous_end: Option<String>,
    pub dimensions: Option<Vec<String>>,
    pub drill_fields: Option<Vec<String>>,
    pub max_depth: Option<usize>,
    pub max_branches: Option<usize>,
    pub min_contribution: Option<Num>,
    pub min_delta_abs: Option<Num>,
    pub min_score_improvement: Option<Num>,
    pub min_slice_rows: Option<u64>,
    pub top_movers: Option<usize>,
    pub planner: Option<String>,
    pub planner_backend: Option<String>,
    pub planner_model: Option<String>,
    pub verbose: Option<bool>,
    pub trace: Option<bool>,
    pub output_format: Option<String>,
    pub out: Option<String>,
}

/// A value that is zero up to the last place of one.
pub open spec fn negligible(x: Num) -> bool {
    x.abs_spec().le(Num { bits: EPSILON })
}

fn is_negligible(x: Num) -> (r: bool)
    ensures
        r == negligible(x),
{
    x.abs().at_most(Num { bits: EPSILON })
}

/// The first value, else the second.
pub open spec fn either<T>(a: Option<T>, b: Option<T>) -> Option<T> {
    if a is Some {
        a
    } else {
        b
    }
}

fn pick<T>(a: Option<T>, b: Option<T>) -> (r: Option<T>)
    ensures
        r == either(a, b),
{
    match a {
        Some(x) => Some(x),
        None => b,
    }
}

// ---------------------------------------------------------------------------
// Lists of fields
// ---------------------------------------------------------------------------

/// The trimmed fields that are not blank, each once whatever the case of its letters.
pub open spec fn distinct_fields(values: Seq<Seq<char>>) -> Seq<Seq<char>> {
    list::distinct_by(
        list::keep(values.map_values(|v: Seq<char>| text::trim(v)), |v: Seq<char>| v.len() > 0),
        |v: Seq<char>| text::lower(v),
    )
}

/// Trims fields, drops blank ones, and keeps of those that differ only in case
/// the first.
pub fn dedup_csv_fields(values: &[String]) -> (r: Vec<String>)
    ensures
        text::views(r@) == distinct_fields(text::views(values@)),
{
    let ghost all = text::views(values@).map_values(|v: Seq<char>| text::trim(v));
    let ghost filled = |v: Seq<char>| v.len() > 0;
    let ghost key = |v: Seq<char>| text::lower(v);
    let mut out: Vec<String> = Vec::new();
    let mut i: usize = 0;
    assert(text::views(out@) =~= list::distinct_by(list::keep(all.take(0), filled), key));
    while i < values.len()
        invariant
            i <= values.len(),
            all == text::views(values@).map_values(|v: Seq<char>| text::trim(v)),
            filled == (|v: Seq<char>| v.len() > 0),
            key == (|v: Seq<char>| text::lower(v)),
            text::views(out@) == list::distinct_by(list::keep(all.take(i as int), filled), key),
        decreases values.len() - i,
    {
        let t = trimmed(values[i].as_str());
        assert(all[i as int] == t@);
        assert(all.take(i + 1).drop_last() =~= all.take(i as int));
        let ghost front = text::views(out@);
        if !t.as_str().is_empty() {
            let ghost kept = list::keep(all.take(i as int), filled);
            assert(kept.push(t@).drop_last() =~= kept);
            let mut found: bool = false;
            let mut k: usize = 0;
            while k < out.len()
                invariant
                    k <= out.len(),
                    front == text::views(out@),
                    key == (|v: Seq<char>| text::lower(v)),
                    found == exists|j: int| 0 <= j < k && key(#[trigger] front[j]) == key(t@),
                decreases out.len() - k,
            {
                assert(front[k as int] == out@[k as int]@);
                if eq_ignore_case(out[k].as_str(), t.as_str()) {
                    assert(key(front[k as int]) == key(t@));
                    found = true;
                }
                k += 1;
            }
            if !found {
                out.push(t);
                assert(text::views(out@) =~= front.push(t@));
            }
        }
        i += 1;
    }
    assert(all.take(all.len() as int) =~= all);
    out
}

/// A list of distinct fields stays as it is.
pub proof fn law_distinct_fields_idempotent(values: Seq<Seq<char>>)
    ensures
        distinct_fields(distinct_fields(values)) == distinct_fields(values),
{
    let once = distinct_fields(values);
    let all = values.map_values(|v: Seq<char>| text::trim(v));
    let filled = |v: Seq<char>| v.len() > 0;
    let key = |v: Seq<char>| text::lower(v);
    let kept = list::keep(all, filled);
    list::lemma_keep(all, filled);
    list::lemma_distinct_by(kept, key);
    assert forall|i: int| 0 <= i < once.len() implies #[trigger] text::trim(once[i]) == once[i]
        && once[i].len() > 0 by {
        assert(kept.contains(once[i]));
        let j = choose|j: int| 0 <= j < kept.len() && kept[j] == once[i];
        assert(filled(kept[j]));
        assert(all.contains(kept[j]));
        let m = choose|m: int| 0 <= m < all.len() && all[m] == kept[j];
        assert(once[i] == text::trim(values[m]));
        text::lemma_trim_idempotent(values[m]);
    }
    let again = once.map_values(|v: Seq<char>| text::trim(v));
    assert(again =~= once);
    lemma_keep_all(once, filled);
    list::lemma_distinct_by_fixed(once, key);
}

proof fn lemma_keep_all(s: Seq<Seq<char>>, p: spec_fn(Seq<char>) -> bool)
    requires
        forall|i: int| 0 <= i < s.len() ==> p(#[trigger] s[i]),
    ensures
        list::keep(s, p) == s,
    decreases s.len(),
{
    if s.len() > 0 {
        assert forall|i: int| 0 <= i < s.len() - 1 implies p(#[trigger] s.drop_last()[i]) by {
            assert(s.drop_last()[i] == s[i]);
        }
        lemma_keep_all(s.drop_last(), p);
        assert(s[s.len() - 1] == s.last());
        assert(s.drop_last().push(s.last()) =~= s);
    }
}

// ---------------------------------------------------------------------------
// Values of a configuration file
// ---------------------------------------------------------------------------

/// The first value of the file that is wanted and cannot be read, as a message.
pub open spec fn config_error(args: InvestigateWorkflowArgs, cfg: InvestigateConfigEntry) -> Option<
    Seq<char>,
> {
    if args.mode is None && cfg.mode is Some && args::parse_mode_arg_from_str_value(cfg.mode->0@) is None {
        Some(args::parse_mode_arg_from_str_error(cfg.mode->0@))
    } else if args.postgres_ssl_mode == PostgresSslMode::Prefer && cfg.postgres_ssl_mode is Some && args::parse_postgres_ssl_mode_from_str_value(cfg.postgres_ssl_mode->0@) is None {
        Some(args::parse_postgres_ssl_mode_from_str_error(cfg.postgres_ssl_mode->0@))
    } else if args.time_grain is None && cfg.time_grain is Some && args::parse_time_grain_from_str_value(cfg.time_grain->0@) is None {
        Some(args::parse_time_grain_from_str_error(cfg.time_grain->0@))
    } else if args.period is None && cfg.period is Some && args::parse_period_preset_from_str_value(cfg.period->0@) is None {
        Some(args::parse_period_preset_from_str_error(cfg.period->0@))
    } else if args.planner == InvestigationPlanner::Deterministic && cfg.planner is Some && args::parse_planner_from_str_value(cfg.planner->0@) is None {
        Some(args::parse_planner_from_str_error(cfg.planner->0@))
    } else if args.planner_backend == BackendArg::Local && cfg.planner_backend is Some && args::parse_backend_arg_from_str_value(cfg.planner_backend->0@) is None {
        Some(args::parse_backend_arg_from_str_error(cfg.planner_backend->0@))
    } else if args.output_format == InvestigateOutputFormat::Both && cfg.output_format is Some && args::parse_investigate_output_format_from_str_value(cfg.output_format->0@) is None {
        Some(args::parse_investigate_output_format_from_str_error(cfg.output_format->0@))
    } else {
        None
    }
}

/// The fields that are compared by: the options' own, else the file's.
pub open spec fn chosen_fields(own: Vec<String>, file: Option<Vec<String>>) -> Seq<Seq<char>> {
    if own@.len() == 0 && file is Some {
        text::views(file->0@)
    } else {
        text::views(own@)
    }
}

/// `out` are the options with the values of the file where an option has its
/// default, and is otherwise as it was.
pub open spec fn joined(
    args: InvestigateWorkflowArgs,
    cfg: InvestigateConfigEntry,
    out: InvestigateWorkflowArgs,
) -> bool {
    &&& out.question == (if text::is_blank(args.question@) && cfg.question is Some {
        cfg.question->0
    } else {
        args.question
    })
    &&& out.config == args.config
    &&& out.profile == args.profile
    &&& out.profile_config == args.profile_config
    &&& out.base == either(args.base, cfg.base)
    &&& out.new == either(args.new, cfg.new)
    &&& out.postgres_url == either(args.postgres_url, cfg.postgres_url)
    &&& out.postgres_ca_file == either(args.postgres_ca_file, cfg.postgres_ca_file)
    &&& out.query == either(args.query, cfg.query)
    &&& out.query_file == either(args.query_file, cfg.query_file)
    &&& out.metric == either(args.metric, cfg.metric)
    &&& out.date_column == either(args.date_column, cfg.date_column)
    &&& out.anchor_date == either(args.anchor_date, cfg.anchor_date)
    &&& out.current_start == either(args.current_start, cfg.current_start)
    &&& out.current_end == either(args.current_end, cfg.current_end)
    &&& out.previous_start == either(args.previous_start, cfg.previous_start)
    &&& out.previous_end == either(args.previous_end, cfg.previous_end)
    &&& out.planner_model == either(args.planner_model, cfg.planner_model)
    &&& out.out == either(args.out, cfg.out)
    &&& out.mode == (if args.mode is None && cfg.mode is Some {
        args::parse_mode_arg_from_str_value(cfg.mode->0@)
    } else {
        args.mode
    })
    &&& out.time_grain == (if args.time_grain is None && cfg.time_grain is Some {
        args::parse_time_grain_from_str_value(cfg.time_grain->0@)
    } else {
        args.time_grain
    })
    &&& out.period == (if args.period is None && cfg.period is Some {
        args::parse_period_preset_from_str_value(cfg.period->0@)
    } else {
        args.period
    })
    &&& out.postgres_ssl_mode == (if args.postgres_ssl_mode == PostgresSslMode::Prefer && cfg.postgres_ssl_mode is Some {
        args::parse_postgres_ssl_mode_from_str_value(cfg.postgres_ssl_mode->0@)->0
    } else {
        args.postgres_ssl_mode
    })
    &&& out.planner == (if args.planner == InvestigationPlanner::Deterministic && cfg.planner is Some {
        args::parse_planner_from_str_value(cfg.planner->0@)->0
    } else {
        args.planner
    })
    &&& out.planner_backend == (if args.planner_backend == BackendArg::Local && cfg.planner_backend is Some {
        args::parse_backend_arg_from_str_value(cfg.planner_backend->0@)->0
    } else {
        args.planner_backend
    })
    &&& out.output_format == (if args.output_format == InvestigateOutputFormat::Both && cfg.output_format is Some {
        args::parse_investigate_output_format_from_str_value(cfg.output_format->0@)->0
    } else {
        args.output_format
    })
    &&& out.max_depth == (if args.max_depth == 2 && cfg.max_depth is Some {
        cfg.max_depth->0
    } else {
        args.max_depth
    })
    &&& out.max_branches == (if args.max_branches == 3 && cfg.max_branches is Some {
        cfg.max_branches->0
    } else {
        args.max_branches
    })
    &&& out.min_contribution == (if args.min_contribution == (Num { bits: DEFAULT_CONTRIBUTION }) && cfg.min_contribution is Some {
        cfg.min_contribution->0
    } else {
        args.min_contribution
    })
    &&& out.min_delta_abs == (if negligible(args.min_delta_abs) && cfg.min_delta_abs is Some {
        cfg.min_delta_abs->0
    } else {
        args.min_delta_abs
    })
    &&& out.min_score_improvement == (if negligible(args.min_score_improvement) && cfg.min_score_improvement is Some {
        cfg.min_score_improvement->0
    } else {
        args.min_score_improvement
    })
    &&& out.min_slice_rows == (if args.min_slice_rows == 5 && cfg.min_slice_rows is Some {
        cfg.min_slice_rows->0
    } else {
        args.min_slice_rows
    })
    &&& out.top_movers == (if args.top_movers == 12 && cfg.top_movers is Some {
        cfg.top_movers->0
    } else {
        args.top_movers
    })
    &&& out.verbose == (if !args.verbose && cfg.verbose is Some {
        cfg.verbose->0
    } else {
        args.verbose
    })
    &&& out.trace == (if !args.trace && cfg.trace is Some {
        cfg.trace->0
    } else {
        args.trace
    })
    &&& text::views(out.dimensions@) == distinct_fields(chosen_fields(args.dimensions, cfg.dimensions))
    &&& text::views(out.drill_fields@) == distinct_fields(chosen_fields(args.drill_fields, cfg.drill_fields))
}

/// `out` are the options as they were, with their lists of fields put in order.
pub open spec fn tidied(args: InvestigateWorkflowArgs, out: InvestigateWorkflowArgs) -> bool {
    &&& out == InvestigateWorkflowArgs {
        dimensions: out.dimensions,
        drill_fields: out.drill_fields,
        ..args
    }
    &&& text::views(out.dimensions@) == distinct_fields(text::views(args.dimensions@))
    &&& text::views(out.drill_fields@) == distinct_fields(text::views(args.drill_fields@))
}

fn join_options(args: InvestigateWorkflowArgs, cfg: InvestigateConfigEntry) -> (r: Result<
    InvestigateWorkflowArgs,
    String,
>)
    ensures
        match r {
            Ok(out) => config_error(args, cfg) is None && joined(args, cfg, out),
            Err(e) => config_error(args, cfg) == Some(e@),
        },
{
    let mut mode = args.mode;
    if args.mode.is_none() {
        match &cfg.mode {
            Some(v) => match parse_mode_arg_from_str(v.as_str()) {
                Ok(x) => {
                    mode = Some(x);
                },
                Err(e) => {
                    return Err(e);
                },
            },
            None => {},
        }
    }
    let mut postgres_ssl_mode = args.postgres_ssl_mode;
    if args.postgres_ssl_mode == PostgresSslMode::Prefer {
        match &cfg.postgres_ssl_mode {
            Some(v) => match parse_postgres_ssl_mode_from_str(v.as_str()) {
                Ok(x) => {
                    postgres_ssl_mode = x;
                },
                Err(e) => {
                    return Err(e);
                },
            },
            None => {},
        }
    }
    let mut time_grain = args.time_grain;
    if args.time_grain.is_none() {
        match &cfg.time_grain {
            Some(v) => match parse_time_grain_from_str(v.as_str()) {
                Ok(x) => {
                    time_grain = Some(x);
                },
                Err(e) => {
                    return Err(e);
                },
            },
            None => {},
        }
    }
    let mut period = args.period;
    if args.period.is_none() {
        match &cfg.period {
            Some(v) => match parse_period_preset_from_str(v.as_str()) {
                Ok(x) => {
                    period = Some(x);
                },
                Err(e) => {
                    return Err(e);
                },
            },
            None => {},
        }
    }
    let mut planner = args.planner;
    if args.planner == InvestigationPlanner::Deterministic {
        match &cfg.planner {
            Some(v) => match parse_planner_from_str(v.as_str()) {
                Ok(x) => {
                    planner = x;
                },
                Err(e) => {
                    return Err(e);
                },
            },
            None => {},
        }
    }
    let mut planner_backend = args.planner_backend;
    if args.planner_backend == BackendArg::Local {
        match &cfg.planner_backend {
            Some(v) => match parse_backend_arg_from_str(v.as_str()) {
                Ok(x) => {
                    planner_backend = x;
                },
                Err(e) => {
                    return Err(e);
                },
            },
            None => {},
        }
    }
    let mut output_format = args.output_format;
    if args.output_format == InvestigateOutputFormat::Both {
        match &cfg.output_format {
            Some(v) => match parse_investigate_output_format_from_str(v.as_str()) {
                Ok(x) => {
                    output_format = x;
                },
                Err(e) => {
                    return Err(e);
                },
            },
            None => {},
        }
    }
    let mut question = args.question;
    if blank(question.as_str()) {
        match cfg.question {
            Some(v) => {
                question = v;
            },
            None => {},
        }
    }
    let mut dimensions = args.dimensions;
    if dimensions.len() == 0 {
        match cfg.dimensions {
            Some(v) => {
                dimensions = v;
            },
            None => {},
        }
    }
    let mut drill_fields = args.drill_fields;
    if drill_fields.len() == 0 {
        match cfg.drill_fields {
            Some(v) => {
                drill_fields = v;
            },
            None => {},
        }
    }
    let mut max_depth: usize = args.max_depth;
    if args.max_depth == 2 {
        match cfg.max_depth {
            Some(v) => {
                max_depth = v;
            },
            None => {},
        }
    }
    let mut max_branches: usize = args.max_branches;
    if args.max_branches == 3 {
        match cfg.max_branches {
            Some(v) => {
                max_branches = v;
            },
            None => {},
        }
    }
    let mut min_contribution: Num = args.min_contribution;
    if args.min_contribution == (Num { bits: DEFAULT_CONTRIBUTION }) {
        match cfg.min_contribution {
            Some(v) => {
                min_contribution = v;
            },
            None => {},
        }
    }
    let mut min_delta_abs: Num = args.min_delta_abs;
    if is_negligible(args.min_delta_abs) {
        match cfg.min_delta_abs {
            Some(v) => {
                min_delta_abs = v;
            },
            None => {},
        }
    }
    let mut min_score_improvement: Num = args.min_score_improvement;
    if is_negligible(args.min_score_improvement) {
        match cfg.min_score_improvement {
            Some(v) => {
                min_score_improvement = v;
            },
            None => {},
        }
    }
    let mut min_slice_rows: u64 = args.min_slice_rows;
    if args.min_slice_rows == 5 {
        match cfg.min_slice_rows {
            Some(v) => {
                min_slice_rows = v;
            },
            None => {},
        }
    }
    let mut top_movers: usize = args.top_movers;
    if args.top_movers == 12 {
        match cfg.top_movers {
            Some(v) => {
                top_movers = v;
            },
            None => {},
        }
    }
    let mut verbose: bool = args.verbose;
    if !args.verbose {
        match cfg.verbose {
            Some(v) => {
                verbose = v;
            },
            None => {},
        }
    }
    let mut trace: bool = args.trace;
    if !args.trace {
        match cfg.trace {
            Some(v) => {
                trace = v;
            },
            None => {},
        }
    }
    Ok(InvestigateWorkflowArgs {
        question,
        config: args.config,
        profile: args.profile,
        profile_config: args.profile_config,
        base: pick(args.base, cfg.base),
        new: pick(args.new, cfg.new),
        postgres_url: pick(args.postgres_url, cfg.postgres_url),
        postgres_ca_file: pick(args.postgres_ca_file, cfg.postgres_ca_file),
        query: pick(args.query, cfg.query),
        query_file: pick(args.query_file, cfg.query_file),
        metric: pick(args.metric, cfg.metric),
        date_column: pick(args.date_column, cfg.date_column),
        anchor_date: pick(args.anchor_date, cfg.anchor_date),
        current_start: pick(args.current_start, cfg.current_start),
        current_end: pick(args.current_end, cfg.current_end),
        previous_start: pick(args.previous_start, cfg.previous_start),
        previous_end: pick(args.previous_end, cfg.previous_end),
        planner_model: pick(args.planner_model, cfg.planner_model),
        out: pick(args.out, cfg.out),
        mode,
        postgres_ssl_mode,
        time_grain,
        period,
        planner,
        planner_backend,
        output_format,
        max_depth,
        max_branches,
        min_contribution,
        min_delta_abs,
        min_score_improvement,
        min_slice_rows,
        top_movers,
        verbose,
        trace,
        dimensions: dedup_csv_fields(dimensions.as_slice()),
        drill_fields: dedup_csv_fields(drill_fields.as_slice()),
    })
}

/// The options of an investigation with the values of its configuration file,
/// if one was read: a value of the file counts where the option has its default.
pub fn apply_investigate_config(
    args: InvestigateWorkflowArgs,
    loaded: Option<InvestigateConfigEntry>,
) -> (r: Result<InvestigateWorkflowArgs, String>)
    ensures
        match loaded {
            Some(cfg) => match r {
                Ok(out) => config_error(args, cfg) is None && joined(args, cfg, out),
                Err(e) => config_error(args, cfg) == Some(e@),
            },
            None => r is Ok && tidied(args, r->Ok_0),
        },
{
    match loaded {
        Some(cfg) => join_options(args, cfg),
        None => {
            let dimensions = dedup_csv_fields(args.dimensions.as_slice());
            let drill_fields = dedup_csv_fields(args.drill_fields.as_slice());
            Ok(InvestigateWorkflowArgs { dimensions, drill_fields, ..args })
        },
    }
}

/// An option that was given a value of its own never takes the file's: neither
/// one that was given at all, nor one that differs from its default. Lists keep
/// the given names, each once, and where the options come from stays as it is.
pub proof fn law_own_options_win(
    args: InvestigateWorkflowArgs,
    cfg: InvestigateConfigEntry,
    out: InvestigateWorkflowArgs,
)
    requires
        joined(args, cfg, out),
    ensures
        !text::is_blank(args.question@) ==> out.question == args.question,
        out.config == args.config,
        out.profile == args.profile,
        out.profile_config == args.profile_config,
        args.mode is Some ==> out.mode == args.mode,
        args.base is Some ==> out.base == args.base,
        args.new is Some ==> out.new == args.new,
        args.postgres_url is Some ==> out.postgres_url == args.postgres_url,
        args.postgres_ca_file is Some ==> out.postgres_ca_file == args.postgres_ca_file,
        args.query is Some ==> out.query == args.query,
        args.query_file is Some ==> out.query_file == args.query_file,
        args.metric is Some ==> out.metric == args.metric,
        args.date_column is Some ==> out.date_column == args.date_column,
        args.time_grain is Some ==> out.time_grain == args.time_grain,
        args.period is Some ==> out.period == args.period,
        args.anchor_date is Some ==> out.anchor_date == args.anchor_date,
        args.current_start is Some ==> out.current_start == args.current_start,
        args.current_end is Some ==> out.current_end == args.current_end,
        args.previous_start is Some ==> out.previous_start == args.previous_start,
        args.previous_end is Some ==> out.previous_end == args.previous_end,
        args.planner_model is Some ==> out.planner_model == args.planner_model,
        args.out is Some ==> out.out == args.out,
        args.postgres_ssl_mode != PostgresSslMode::Prefer ==> out.postgres_ssl_mode
            == args.postgres_ssl_mode,
        args.planner != InvestigationPlanner::Deterministic ==> out.planner == args.planner,
        args.planner_backend != BackendArg::Local ==> out.planner_backend == args.planner_backend,
        args.output_format != InvestigateOutputFormat::Both ==> out.output_format
            == args.output_format,
        args.max_depth != 2 ==> out.max_depth == args.max_depth,
        args.max_branches != 3 ==> out.max_branches == args.max_branches,
        args.min_contribution != (Num { bits: DEFAULT_CONTRIBUTION }) ==> out.min_contribution
            == args.min_contribution,
        !negligible(args.min_delta_abs) ==> out.min_delta_abs == args.min_delta_abs,
        !negligible(args.min_score_improvement) ==> out.min_score_improvement
            == args.min_score_improvement,
        args.min_slice_rows != 5 ==> out.min_slice_rows == args.min_slice_rows,
        args.top_movers != 12 ==> out.top_movers == args.top_movers,
        args.verbose ==> out.verbose,
        args.trace ==> out.trace,
        args.dimensions@.len() > 0 ==> text::views(out.dimensions@) == distinct_fields(
            text::views(args.dimensions@),
        ),
        args.drill_fields@.len() > 0 ==> text::views(out.drill_fields@) == distinct_fields(
            text::views(args.drill_fields@),
        ),
{
}

/// Where the command line gives nothing, the value of the file is taken.
pub proof fn law_file_options_fill_in(
    args: InvestigateWorkflowArgs,
    cfg: InvestigateConfigEntry,
    out: InvestigateWorkflowArgs,
)
    requires
        joined(args, cfg, out),
    ensures
        text::is_blank(args.question@) && cfg.question is Some ==> out.question
            == cfg.question->0,
        args.base is None ==> out.base == cfg.base,
        args.new is None ==> out.new == cfg.new,
        args.postgres_url is None ==> out.postgres_url == cfg.postgres_url,
        args.postgres_ca_file is None ==> out.postgres_ca_file == cfg.postgres_ca_file,
        args.query is None ==> out.query == cfg.query,
        args.query_file is None ==> out.query_file == cfg.query_file,
        args.metric is None ==> out.metric == cfg.metric,
        args.date_column is None ==> out.date_column == cfg.date_column,
        args.anchor_date is None ==> out.anchor_date == cfg.anchor_date,
        args.current_start is None ==> out.current_start == cfg.current_start,
        args.current_end is None ==> out.current_end == cfg.current_end,
        args.previous_start is None ==> out.previous_start == cfg.previous_start,
        args.previous_end is None ==> out.previous_end == cfg.previous_end,
        args.planner_model is None ==> out.planner_model == cfg.planner_model,
        args.out is None ==> out.out == cfg.out,
        args.max_depth == 2 && cfg.max_depth is Some ==> out.max_depth == cfg.max_depth->0,
        args.max_branches == 3 && cfg.max_branches is Some ==> out.max_branches
            == cfg.max_branches->0,
        args.min_contribution == (Num { bits: DEFAULT_CONTRIBUTION }) && cfg.min_contribution is Some
            ==> out.min_contribution == cfg.min_contribution->0,
        args.min_delta_abs.rank() == 0 && cfg.min_delta_abs is Some ==> out.min_delta_abs
            == cfg.min_delta_abs->0,
        args.min_score_improvement.rank() == 0 && cfg.min_score_improvement is Some
            ==> out.min_score_improvement == cfg.min_score_improvement->0,
        args.min_slice_rows == 5 && cfg.min_slice_rows is Some ==> out.min_slice_rows
            == cfg.min_slice_rows->0,
        args.top_movers == 12 && cfg.top_movers is Some ==> out.top_movers == cfg.top_movers->0,
        !args.verbose && cfg.verbose is Some ==> out.verbose == cfg.verbose->0,
        !args.trace && cfg.trace is Some ==> out.trace == cfg.trace->0,
        args.dimensions@.len() == 0 && cfg.dimensions is Some ==> text::views(out.dimensions@)
            == distinct_fields(text::views(cfg.dimensions->0@)),
        args.drill_fields@.len() == 0 && cfg.drill_fields is Some ==> text::views(
            out.drill_fields@,
        ) == distinct_fields(text::views(cfg.drill_fields->0@)),
{
}

/// Listed fields are trimmed and not empty, no two are the same without regard
/// to case, each comes from the list, and each that the list names is there.
pub proof fn law_listed_fields_are_those_given(values: Seq<Seq<char>>)
    ensures
        ({
            let r = distinct_fields(values);
            &&& forall|i: int|
                0 <= i < r.len() ==> (#[trigger] r[i]).len() > 0 && is_trimmed_from(r[i], values)
            &&& forall|i: int, j: int|
                0 <= i < j < r.len() ==> text::lower(#[trigger] r[i]) != text::lower(
                    #[trigger] r[j],
                )
            &&& forall|k: int|
                0 <= k < values.len() && text::trim(#[trigger] values[k]).len() > 0
                    ==> names_field(r, text::lower(text::trim(values[k])))
        }),
{
    let trimmed = values.map_values(|v: Seq<char>| text::trim(v));
    let filled = |v: Seq<char>| v.len() > 0;
    let kept = list::keep(trimmed, filled);
    let key = |v: Seq<char>| text::lower(v);
    let r = distinct_fields(values);
    list::lemma_keep(trimmed, filled);
    list::lemma_distinct_by(kept, key);
    assert(r == list::distinct_by(kept, key));
    assert forall|i: int| 0 <= i < r.len() implies (#[trigger] r[i]).len() > 0 && is_trimmed_from(
        r[i],
        values,
    ) by {
        assert(kept.contains(r[i]));
        let k = choose|k: int| 0 <= k < kept.len() && kept[k] == r[i];
        assert(filled(kept[k]));
        assert(trimmed.contains(kept[k]));
        let m = choose|m: int| 0 <= m < trimmed.len() && trimmed[m] == kept[k];
        assert(text::trim(values[m]) == r[i]);
    }
    assert forall|i: int, j: int| 0 <= i < j < r.len() implies text::lower(#[trigger] r[i])
        != text::lower(#[trigger] r[j]) by {
        assert(key(r[i]) != key(r[j]));
    }
    assert forall|k: int|
        0 <= k < values.len() && text::trim(#[trigger] values[k]).len() > 0 implies names_field(
        r,
        text::lower(text::trim(values[k])),
    ) by {
        assert(trimmed[k] == text::trim(values[k]));
        assert(trimmed.contains(trimmed[k]));
        assert(filled(trimmed[k]));
        assert(kept.contains(trimmed[k]));
        let m = choose|m: int| 0 <= m < kept.len() && kept[m] == trimmed[k];
        let j = choose|j: int|
            0 <= j < r.len() && key(#[trigger] r[j]) == key(kept[m]);
        assert(text::lower(r[j]) == text::lower(text::trim(values[k])));
    }
}

/// A field is one of the values without the space around it.
pub open spec fn is_trimmed_from(field: Seq<char>, values: Seq<Seq<char>>) -> bool {
    exists|m: int| 0 <= m < values.len() && text::trim(#[trigger] values[m]) == field
}

/// A field of that name in lower case is listed.
pub open spec fn names_field(fields: Seq<Seq<char>>, low: Seq<char>) -> bool {
    exists|j: int| 0 <= j < fields.len() && text::lower(#[trigger] fields[j]) == low
}

} // verus!
