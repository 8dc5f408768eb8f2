//! Command options: their values, their defaults' meaning and their names.

use vstd::prelude::*;

use crate::num::Num;
use crate::scan;
use crate::scan::replaced_char;
use crate::text;
use crate::text::{cat3, same, to_lower, trimmed};

verus! {

/// The forms in which a comparison is written.
#[derive(Clone, Copy, Debug, PartialEq, Eq, Structural)]
pub enum CompareOutputFormat {
    Md,
    Html,
    Json,
    Both,
}

/// The forms in which suggestions are written.
#[derive(Clone, Copy, Debug, PartialEq, Eq, Structural)]
pub enum SuggestOutputFormat {
    Md,
    Json,
    Both,
}

/// The formats of a suggested profile.
#[derive(Clone, Copy, Debug, PartialEq, Eq, Structural)]
pub enum SuggestProfileFormat {
    Toml,
    Json,
}

/// How rows are sampled.
#[derive(Clone, Copy, Debug, PartialEq, Eq, Structural)]
pub enum SampleMode {
    Head,
    Random,
}

/// How drivers are chosen when none are named.
#[derive(Clone, Copy, Debug, PartialEq, Eq, Structural)]
pub enum AutoDriversMode {
    Deterministic,
    NumericCorr,
}

/// Named choices of drivers.
#[derive(Clone, Copy, Debug, PartialEq, Eq, Structural)]
pub enum DriverPreset {
    Id,
    Amount,
    Category,
    Mixed,
}

/// What an investigation looks for.
#[derive(Clone, Copy, Debug, PartialEq, Eq, Structural)]
pub enum InvestigationMode {
    ChangeDrivers,
    ConcentrationDrivers,
    CompareSnapshots,
    RecommendNext,
}

/// Who plans the steps of an investigation.
#[derive(Clone, Copy, Debug, PartialEq, Eq, Structural)]
pub enum InvestigationPlanner {
    Deterministic,
    Llm,
}

/// The mode as it is asked for.
#[derive(Clone, Copy, Debug, PartialEq, Eq, Structural)]
pub enum InvestigationModeArg {
    ChangeDrivers,
    ConcentrationDrivers,
    CompareSnapshots,
    RecommendNext,
}

/// Which contributions a report shows.
#[derive(Clone, Copy, Debug, PartialEq, Eq, Structural)]
pub enum InvestigateContribMode {
    Percent,
    Amount,
    Both,
}

/// The forms in which an investigation is written.
#[derive(Clone, Copy, Debug, PartialEq, Eq, Structural)]
pub enum InvestigateOutputFormat {
    Md,
    Json,
    Both,
}

/// Where a language model runs.
#[derive(Clone, Copy, Debug, PartialEq, Eq, Structural)]
pub enum BackendArg {
    Local,
    Bedrock,
}

/// How the values of a segment are aggregated.
#[derive(Clone, Copy, Debug, PartialEq, Eq, Structural)]
pub enum AggKind {
    Sum,
    Mean,
    Median,
}

/// The percentiles that a report can show.
#[derive(Clone, Copy, Debug, PartialEq, Eq, Structural)]
pub enum PercentileKind {
    P50,
    P90,
}

/// The forms in which an analysis is written.
#[derive(Clone, Copy, Debug, PartialEq, Eq, Structural)]
pub enum OutputFormat {
    Md,
    Json,
    Both,
    Html,
}

/// How a database connection is secured.
#[derive(Clone, Copy, Debug, PartialEq, Eq, Structural)]
pub enum PostgresSslMode {
    Disable,
    Prefer,
    Require,
}

/// The length of a period.
#[derive(Clone, Copy, Debug, PartialEq, Eq, Structural)]
pub enum TimeGrain {
    Day,
    Week,
    Month,
    Year,
}

/// Named periods.
#[derive(Clone, Copy, Debug, PartialEq, Eq, Structural)]
pub enum PeriodPreset {
    Current,
    Previous,
    Last,
}

/// What an investigation reads.
#[derive(Clone, Copy, Debug, PartialEq, Eq, Structural)]
pub enum InvestigateInputKind {
    JsonArtifacts,
    CsvDatasets,
}

/// Options of a table analysis.
#[derive(Clone, Debug)]
pub struct AnalyzeArgs {
    pub input: Option<String>,
    pub postgres_url: Option<String>,
    pub postgres_ssl_mode: PostgresSslMode,
    pub postgres_ca_file: Option<String>,
    pub query: Option<String>,
    pub query_file: Option<String>,
    pub profile: Option<String>,
    pub profile_config: Option<String>,
    pub group_by: Vec<String>,
    pub auto_group_k: usize,
    pub metrics: Vec<String>,
    pub count_only: bool,
    pub agg: AggKind,
    pub percentiles: Vec<PercentileKind>,
    pub normalize_text_groups: bool,
    pub word_freq: bool,
    pub date_column: Option<String>,
    pub time_grain: Option<TimeGrain>,
    pub period: Option<PeriodPreset>,
    pub anchor_date: Option<String>,
    pub current_start: Option<String>,
    pub current_end: Option<String>,
    pub previous_start: Option<String>,
    pub previous_end: Option<String>,
    pub where_clauses: Vec<String>,
    pub exclude_blank_groups: bool,
    pub rank_by: Option<String>,
    pub top: usize,
    pub top_insights: usize,
    pub opportunity_min_records: u64,
    pub min_records: u64,
    pub alert_top5_share: Option<Num>,
    pub alert_blank_share: Option<Num>,
    pub alert_rule: Vec<String>,
    pub output_format: OutputFormat,
    pub out: Option<String>,
}

/// Options of a comparison of two analyses.
#[derive(Clone, Debug)]
pub struct AnalyzeCompareArgs {
    pub base: String,
    pub new: String,
    pub top_movers: usize,
    pub output_format: CompareOutputFormat,
    pub out: Option<String>,
}

/// Options of an investigation.
#[derive(Clone, Debug)]
pub struct InvestigateWorkflowArgs {
    pub question: String,
    pub mode: Option<InvestigationModeArg>,
    pub config: Option<String>,
    pub profile: Option<String>,
    pub profile_config: Option<String>,
    pub base: Option<String>,
    pub new: Option<String>,
    pub postgres_url: Option<String>,
    pub postgres_ssl_mode: PostgresSslMode,
    pub postgres_ca_file: Option<String>,
    pub query: Option<String>,
    pub query_file: Option<String>,
    pub metric: Option<String>,
    pub date_column: Option<String>,
    pub time_grain: Option<TimeGrain>,
    pub period: Option<PeriodPreset>,
    pub anchor_date: Option<String>,
    pub current_start: Option<String>,
    pub current_end: Option<String>,
    pub previous_start: Option<String>,
    pub previous_end: Option<String>,
    pub dimensions: Vec<String>,
    pub drill_fields: Vec<String>,
    pub max_depth: usize,
    pub max_branches: usize,
    pub min_contribution: Num,
    pub min_delta_abs: Num,
    pub min_score_improvement: Num,
    pub min_slice_rows: u64,
    pub top_movers: usize,
    pub planner: InvestigationPlanner,
    pub planner_backend: BackendArg,
    pub planner_model: Option<String>,
    pub verbose: bool,
    pub trace: bool,
    pub output_format: InvestigateOutputFormat,
    pub out: Option<String>,
}

/// Options of a driver investigation.
#[derive(Clone, Debug)]
pub struct InvestigateArgs {
    pub input: String,
    pub metric: String,
    pub drivers: Vec<String>,
    pub driver_include: Vec<String>,
    pub driver_exclude: Vec<String>,
    pub driver_preset: Option<DriverPreset>,
    pub auto_drivers: AutoDriversMode,
    pub dedup_drivers: bool,
    pub driver_contrib: InvestigateContribMode,
    pub top_drivers: usize,
    pub output_format: InvestigateOutputFormat,
    pub out: Option<String>,
    pub max_id_drivers: usize,
    pub max_cat_drivers: usize,
    pub max_num_drivers: usize,
    pub date_column: Option<String>,
    pub time_grain: Option<TimeGrain>,
    pub period: Option<PeriodPreset>,
    pub anchor_date: Option<String>,
    pub current_start: Option<String>,
    pub current_end: Option<String>,
    pub previous_start: Option<String>,
    pub previous_end: Option<String>,
}

/// Options of a driver decomposition.
#[derive(Clone, Debug)]
pub struct AnalyzeDriversArgs {
    pub input: String,
    pub input_new: Option<String>,
    pub metric: String,
    pub output_format: InvestigateOutputFormat,
    pub out: Option<String>,
    pub date_column: Option<String>,
    pub time_grain: Option<TimeGrain>,
    pub period: Option<PeriodPreset>,
    pub anchor_date: Option<String>,
    pub current_start: Option<String>,
    pub current_end: Option<String>,
    pub previous_start: Option<String>,
    pub previous_end: Option<String>,
}

// ---------------------------------------------------------------------------
// Names of option values
// ---------------------------------------------------------------------------

impl AggKind {
    pub open spec fn label_text(self) -> Seq<char> {
        match self {
            AggKind::Sum => "Sum"@,
            AggKind::Mean => "Mean"@,
            AggKind::Median => "Median"@,
        }
    }

    /// The name of the aggregation in a report.
    pub fn label(self) -> (r: &'static str)
        ensures
            r@ == self.label_text(),
    {
        match self {
            AggKind::Sum => "Sum",
            AggKind::Mean => "Mean",
            AggKind::Median => "Median",
        }
    }
}

impl PercentileKind {
    pub open spec fn label_text(self) -> Seq<char> {
        match self {
            PercentileKind::P50 => "p50"@,
            PercentileKind::P90 => "p90"@,
        }
    }

    /// The name of the percentile in a report.
    pub fn label(self) -> (r: &'static str)
        ensures
            r@ == self.label_text(),
    {
        match self {
            PercentileKind::P50 => "p50",
            PercentileKind::P90 => "p90",
        }
    }

    /// The part of the values that lies below the percentile, by its bits: a
    /// half, or nine tenths.
    pub fn quantile(self) -> (r: Num)
        ensures
            r.bits == (match self {
                PercentileKind::P50 => 0x3fe0_0000_0000_0000u64,
                PercentileKind::P90 => 0x3fec_cccc_cccc_cccdu64,
            }),
    {
        match self {
            PercentileKind::P50 => Num { bits: 0x3fe0_0000_0000_0000 },
            PercentileKind::P90 => Num { bits: 0x3fec_cccc_cccc_cccd },
        }
    }
}

pub open spec fn investigation_mode_label_text(mode: InvestigationMode) -> Seq<char> {
    match mode {
        InvestigationMode::ChangeDrivers => "change_drivers"@,
        InvestigationMode::ConcentrationDrivers => "concentration_drivers"@,
        InvestigationMode::CompareSnapshots => "compare_snapshots"@,
        InvestigationMode::RecommendNext => "recommend_next"@,
    }
}

/// The name of an investigation mode.
pub fn investigation_mode_label(mode: InvestigationMode) -> (r: &'static str)
    ensures
        r@ == investigation_mode_label_text(mode),
{
    match mode {
        InvestigationMode::ChangeDrivers => "change_drivers",
        InvestigationMode::ConcentrationDrivers => "concentration_drivers",
        InvestigationMode::CompareSnapshots => "compare_snapshots",
        InvestigationMode::RecommendNext => "recommend_next",
    }
}

pub open spec fn investigate_input_kind_label_text(kind: InvestigateInputKind) -> Seq<char> {
    match kind {
        InvestigateInputKind::JsonArtifacts => "artifacts_json"@,
        InvestigateInputKind::CsvDatasets => "datasets_csv"@,
    }
}

/// The name of a kind of input.
pub fn investigate_input_kind_label(kind: InvestigateInputKind) -> (r: &'static str)
    ensures
        r@ == investigate_input_kind_label_text(kind),
{
    match kind {
        InvestigateInputKind::JsonArtifacts => "artifacts_json",
        InvestigateInputKind::CsvDatasets => "datasets_csv",
    }
}

pub open spec fn planner_backend_label_text(backend: BackendArg) -> Seq<char> {
    match backend {
        BackendArg::Local => "local"@,
        BackendArg::Bedrock => "bedrock"@,
    }
}

/// The name of a planner's backend.
pub fn planner_backend_label(backend: BackendArg) -> (r: &'static str)
    ensures
        r@ == planner_backend_label_text(backend),
{
    match backend {
        BackendArg::Local => "local",
        BackendArg::Bedrock => "bedrock",
    }
}

pub open spec fn suggest_profile_format_extension_text(format: SuggestProfileFormat) -> Seq<char> {
    match format {
        SuggestProfileFormat::Toml => "toml"@,
        SuggestProfileFormat::Json => "json"@,
    }
}

/// The file extension of a suggested profile.
pub fn suggest_profile_format_extension(format: SuggestProfileFormat) -> (r: &'static str)
    ensures
        r@ == suggest_profile_format_extension_text(format),
{
    match format {
        SuggestProfileFormat::Toml => "toml",
        SuggestProfileFormat::Json => "json",
    }
}

pub open spec fn suggest_profile_format_label_text(format: SuggestProfileFormat) -> Seq<char> {
    match format {
        SuggestProfileFormat::Toml => "TOML"@,
        SuggestProfileFormat::Json => "JSON"@,
    }
}

/// The name of a profile format in a report.
pub fn suggest_profile_format_label(format: SuggestProfileFormat) -> (r: &'static str)
    ensures
        r@ == suggest_profile_format_label_text(format),
{
    match format {
        SuggestProfileFormat::Toml => "TOML",
        SuggestProfileFormat::Json => "JSON",
    }
}

/// The mode that an option value asks for.
pub open spec fn mode_of(mode: InvestigationModeArg) -> InvestigationMode {
    match mode {
        InvestigationModeArg::ChangeDrivers => InvestigationMode::ChangeDrivers,
        InvestigationModeArg::ConcentrationDrivers => InvestigationMode::ConcentrationDrivers,
        InvestigationModeArg::CompareSnapshots => InvestigationMode::CompareSnapshots,
        InvestigationModeArg::RecommendNext => InvestigationMode::RecommendNext,
    }
}

/// The mode that an option value asks for.
pub fn mode_from_arg(mode: InvestigationModeArg) -> (r: InvestigationMode)
    ensures
        r == mode_of(mode),
{
    match mode {
        InvestigationModeArg::ChangeDrivers => InvestigationMode::ChangeDrivers,
        InvestigationModeArg::ConcentrationDrivers => InvestigationMode::ConcentrationDrivers,
        InvestigationModeArg::CompareSnapshots => InvestigationMode::CompareSnapshots,
        InvestigationModeArg::RecommendNext => InvestigationMode::RecommendNext,
    }
}

// ---------------------------------------------------------------------------
// Option values written as text
// ---------------------------------------------------------------------------

/// The form in which an option value is compared: trimmed, in lower case.
pub open spec fn option_key(raw: Seq<char>) -> Seq<char> {
    text::lower(text::trim(raw))
}

pub open spec fn parse_mode_arg_from_str_value(raw: Seq<char>) -> Option<InvestigationModeArg> {
    let key = scan::replace_char(option_key(raw), '-', "_"@);
    if key == "change_drivers"@ {
        Some(InvestigationModeArg::ChangeDrivers)
    } else if key == "concentration_drivers"@ {
        Some(InvestigationModeArg::ConcentrationDrivers)
    } else if key == "compare_snapshots"@ {
        Some(InvestigationModeArg::CompareSnapshots)
    } else if key == "recommend_next"@ {
        Some(InvestigationModeArg::RecommendNext)
    } else {
        None
    }
}

pub open spec fn parse_mode_arg_from_str_error(raw: Seq<char>) -> Seq<char> {
    "invalid investigate mode '"@ + raw + "'; expected one of: change_drivers, concentration_drivers, compare_snapshots, recommend_next"@
}

/// Reads an investigation mode; dashes count as underscores.
pub fn parse_mode_arg_from_str(raw: &str) -> (r: Result<InvestigationModeArg, String>)
    ensures
        match r {
            Ok(v) => parse_mode_arg_from_str_value(raw@) == Some(v),
            Err(e) => parse_mode_arg_from_str_value(raw@) is None && e@ == parse_mode_arg_from_str_error(raw@),
        },
{
    let key = to_lower(trimmed(raw).as_str());
    let key = replaced_char(key.as_str(), '-', "_");
    if same(key.as_str(), "change_drivers") {
        Ok(InvestigationModeArg::ChangeDrivers)
    } else if same(key.as_str(), "concentration_drivers") {
        Ok(InvestigationModeArg::ConcentrationDrivers)
    } else if same(key.as_str(), "compare_snapshots") {
        Ok(InvestigationModeArg::CompareSnapshots)
    } else if same(key.as_str(), "recommend_next") {
        Ok(InvestigationModeArg::RecommendNext)
    } else {
        Err(cat3("invalid investigate mode '", raw, "'; expected one of: change_drivers, concentration_drivers, compare_snapshots, recommend_next"))
    }
}

pub open spec fn parse_planner_from_str_value(raw: Seq<char>) -> Option<InvestigationPlanner> {
    let key = option_key(raw);
    if key == "deterministic"@ {
        Some(InvestigationPlanner::Deterministic)
    } else if key == "llm"@ {
        Some(InvestigationPlanner::Llm)
    } else {
        None
    }
}

pub open spec fn parse_planner_from_str_error(raw: Seq<char>) -> Seq<char> {
    "invalid planner '"@ + raw + "'; expected deterministic or llm"@
}

/// Reads a planner.
pub fn parse_planner_from_str(raw: &str) -> (r: Result<InvestigationPlanner, String>)
    ensures
        match r {
            Ok(v) => parse_planner_from_str_value(raw@) == Some(v),
            Err(e) => parse_planner_from_str_value(raw@) is None && e@ == parse_planner_from_str_error(raw@),
        },
{
    let key = to_lower(trimmed(raw).as_str());
    if same(key.as_str(), "deterministic") {
        Ok(InvestigationPlanner::Deterministic)
    } else if same(key.as_str(), "llm") {
        Ok(InvestigationPlanner::Llm)
    } else {
        Err(cat3("invalid planner '", raw, "'; expected deterministic or llm"))
    }
}

pub open spec fn parse_backend_arg_from_str_value(raw: Seq<char>) -> Option<BackendArg> {
    let key = option_key(raw);
    if key == "local"@ {
        Some(BackendArg::Local)
    } else if key == "bedrock"@ {
        Some(BackendArg::Bedrock)
    } else {
        None
    }
}

pub open spec fn parse_backend_arg_from_str_error(raw: Seq<char>) -> Seq<char> {
    "invalid planner backend '"@ + raw + "'; expected local or bedrock"@
}

/// Reads a planner's backend.
pub fn parse_backend_arg_from_str(raw: &str) -> (r: Result<BackendArg, String>)
    ensures
        match r {
            Ok(v) => parse_backend_arg_from_str_value(raw@) == Some(v),
            Err(e) => parse_backend_arg_from_str_value(raw@) is None && e@ == parse_backend_arg_from_str_error(raw@),
        },
{
    let key = to_lower(trimmed(raw).as_str());
    if same(key.as_str(), "local") {
        Ok(BackendArg::Local)
    } else if same(key.as_str(), "bedrock") {
        Ok(BackendArg::Bedrock)
    } else {
        Err(cat3("invalid planner backend '", raw, "'; expected local or bedrock"))
    }
}

pub open spec fn parse_investigate_output_format_from_str_value(raw: Seq<char>) -> Option<InvestigateOutputFormat> {
    let key = option_key(raw);
    if key == "md"@ {
        Some(InvestigateOutputFormat::Md)
    } else if key == "json"@ {
        Some(InvestigateOutputFormat::Json)
    } else if key == "both"@ {
        Some(InvestigateOutputFormat::Both)
    } else {
        None
    }
}

pub open spec fn parse_investigate_output_format_from_str_error(raw: Seq<char>) -> Seq<char> {
    "invalid investigate output format '"@ + raw + "'; expected md, json, or both"@
}

/// Reads the form in which an investigation is written.
pub fn parse_investigate_output_format_from_str(raw: &str) -> (r: Result<InvestigateOutputFormat, String>)
    ensures
        match r {
            Ok(v) => parse_investigate_output_format_from_str_value(raw@) == Some(v),
            Err(e) => parse_investigate_output_format_from_str_value(raw@) is None && e@ == parse_investigate_output_format_from_str_error(raw@),
        },
{
    let key = to_lower(trimmed(raw).as_str());
    if same(key.as_str(), "md") {
        Ok(InvestigateOutputFormat::Md)
    } else if same(key.as_str(), "json") {
        Ok(InvestigateOutputFormat::Json)
    } else if same(key.as_str(), "both") {
        Ok(InvestigateOutputFormat::Both)
    } else {
        Err(cat3("invalid investigate output format '", raw, "'; expected md, json, or both"))
    }
}

pub open spec fn parse_postgres_ssl_mode_from_str_value(raw: Seq<char>) -> Option<PostgresSslMode> {
    let key = option_key(raw);
    if key == "disable"@ {
        Some(PostgresSslMode::Disable)
    } else if key == "prefer"@ {
        Some(PostgresSslMode::Prefer)
    } else if key == "require"@ {
        Some(PostgresSslMode::Require)
    } else {
        None
    }
}

pub open spec fn parse_postgres_ssl_mode_from_str_error(raw: Seq<char>) -> Seq<char> {
    "invalid postgres ssl mode '"@ + raw + "'; expected disable, prefer, or require"@
}

/// Reads how a database connection is secured.
pub fn parse_postgres_ssl_mode_from_str(raw: &str) -> (r: Result<PostgresSslMode, String>)
    ensures
        match r {
            Ok(v) => parse_postgres_ssl_mode_from_str_value(raw@) == Some(v),
            Err(e) => parse_postgres_ssl_mode_from_str_value(raw@) is None && e@ == parse_postgres_ssl_mode_from_str_error(raw@),
        },
{
    let key = to_lower(trimmed(raw).as_str());
    if same(key.as_str(), "disable") {
        Ok(PostgresSslMode::Disable)
    } else if same(key.as_str(), "prefer") {
        Ok(PostgresSslMode::Prefer)
    } else if same(key.as_str(), "require") {
        Ok(PostgresSslMode::Require)
    } else {
        Err(cat3("invalid postgres ssl mode '", raw, "'; expected disable, prefer, or require"))
    }
}

pub open spec fn parse_time_grain_from_str_value(raw: Seq<char>) -> Option<TimeGrain> {
    let key = option_key(raw);
    if key == "day"@ {
        Some(TimeGrain::Day)
    } else if key == "week"@ {
        Some(TimeGrain::Week)
    } else if key == "month"@ {
        Some(TimeGrain::Month)
    } else if key == "year"@ {
        Some(TimeGrain::Year)
    } else {
        None
    }
}

pub open spec fn parse_time_grain_from_str_error(raw: Seq<char>) -> Seq<char> {
    "invalid time grain '"@ + raw + "'; expected day, week, month, or year"@
}

/// Reads the length of a period.
pub fn parse_time_grain_from_str(raw: &str) -> (r: Result<TimeGrain, String>)
    ensures
        match r {
            Ok(v) => parse_time_grain_from_str_value(raw@) == Some(v),
            Err(e) => parse_time_grain_from_str_value(raw@) is None && e@ == parse_time_grain_from_str_error(raw@),
        },
{
    let key = to_lower(trimmed(raw).as_str());
    if same(key.as_str(), "day") {
        Ok(TimeGrain::Day)
    } else if same(key.as_str(), "week") {
        Ok(TimeGrain::Week)
    } else if same(key.as_str(), "month") {
        Ok(TimeGrain::Month)
    } else if same(key.as_str(), "year") {
        Ok(TimeGrain::Year)
    } else {
        Err(cat3("invalid time grain '", raw, "'; expected day, week, month, or year"))
    }
}

pub open spec fn parse_period_preset_from_str_value(raw: Seq<char>) -> Option<PeriodPreset> {
    let key = option_key(raw);
    if key == "current"@ {
        Some(PeriodPreset::Current)
    } else if key == "previous"@ {
        Some(PeriodPreset::Previous)
    } else if key == "last"@ {
        Some(PeriodPreset::Last)
    } else {
        None
    }
}

pub open spec fn parse_period_preset_from_str_error(raw: Seq<char>) -> Seq<char> {
    "invalid period '"@ + raw + "'; expected current, previous, or last"@
}

/// Reads a named period.
pub fn parse_period_preset_from_str(raw: &str) -> (r: Result<PeriodPreset, String>)
    ensures
        match r {
            Ok(v) => parse_period_preset_from_str_value(raw@) == Some(v),
            Err(e) => parse_period_preset_from_str_value(raw@) is None && e@ == parse_period_preset_from_str_error(raw@),
        },
{
    let key = to_lower(trimmed(raw).as_str());
    if same(key.as_str(), "current") {
        Ok(PeriodPreset::Current)
    } else if same(key.as_str(), "previous") {
        Ok(PeriodPreset::Previous)
    } else if same(key.as_str(), "last") {
        Ok(PeriodPreset::Last)
    } else {
        Err(cat3("invalid period '", raw, "'; expected current, previous, or last"))
    }
}

/// A name of small letters and underscores.
spec fn is_plain(s: Seq<char>) -> bool {
    s.len() > 0 && forall|i: int| 0 <= i < s.len() ==> 'a' <= #[trigger] s[i] <= 'z' || s[i] == '_'
}

proof fn lemma_plain_key(s: Seq<char>)
    requires
        is_plain(s),
    ensures
        option_key(s) == s,
        scan::replace_char(s, '-', "_"@) == s,
{
    assert('a' <= s[0] <= 'z' || s[0] == '_');
    assert('a' <= s[s.len() - 1] <= 'z' || s[s.len() - 1] == '_');
    assert(text::trim_start(s) == s && text::trim(s) == s);
    assert(text::lower(s) =~= s);
    lemma_plain_dashes(s, s.len() as int);
    assert(s.take(s.len() as int) =~= s);
}

proof fn lemma_plain_dashes(s: Seq<char>, n: int)
    requires
        is_plain(s),
        0 <= n <= s.len(),
    ensures
        scan::replace_char(s.take(n), '-', "_"@) == s.take(n),
    decreases n,
{
    if n > 0 {
        lemma_plain_dashes(s, n - 1);
        assert(s.take(n).drop_last() =~= s.take(n - 1));
        assert('a' <= s[n - 1] <= 'z' || s[n - 1] == '_');
        assert(s.take(n) =~= s.take(n - 1) + seq![s[n - 1]]);
    } else {
        assert(s.take(0) =~= Seq::<char>::empty());
    }
}

/// The names of modes and of backends are read back as what they name.
pub proof fn law_names_are_read_back(mode: InvestigationModeArg, backend: BackendArg)
    ensures
        parse_mode_arg_from_str_value(investigation_mode_label_text(mode_of(mode))) == Some(mode),
        parse_backend_arg_from_str_value(planner_backend_label_text(backend)) == Some(backend),
{
    reveal_strlit("change_drivers");
    reveal_strlit("concentration_drivers");
    reveal_strlit("compare_snapshots");
    reveal_strlit("recommend_next");
    reveal_strlit("local");
    reveal_strlit("bedrock");
    let a = investigation_mode_label_text(mode_of(mode));
    let b = planner_backend_label_text(backend);
    assert(is_plain(a));
    assert(is_plain(b));
    lemma_plain_key(a);
    lemma_plain_key(b);
    assert("concentration_drivers"@.len() != "change_drivers"@.len());
    assert("compare_snapshots"@.len() != "change_drivers"@.len());
    assert("recommend_next"@[0] == 'r' && "change_drivers"@[0] == 'c');
    assert("bedrock"@.len() != "local"@.len());
}

} // verus!
