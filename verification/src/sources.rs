//! Where configuration and data come from.

use vstd::prelude::*;

use crate::args::{AnalyzeArgs, InvestigateWorkflowArgs, PostgresSslMode};
use crate::list;
use crate::num::Num;
use crate::planner;
use crate::scan;
use crate::scan::{ends, mentions};
use crate::text;
use crate::text::{
    cat3, cat4, cat5, copy_all, eq_ignore_case, same, to_lower_case, trimmed,
};

verus! {

// ---------------------------------------------------------------------------
// Which configuration an investigation reads
// ---------------------------------------------------------------------------

/// Where an investigation's configuration stands: nowhere, in a file of its
/// own, or in a profile of a file.
#[derive(Debug)]
pub enum ConfigSource {
    Nothing,
    File { path: String },
    Profile { path: String, profile: String },
}

/// A configuration source in views.
pub enum SourceView {
    Nothing,
    File { path: Seq<char> },
    Profile { path: Seq<char>, profile: Seq<char> },
}

impl View for ConfigSource {
    type V = SourceView;

    open spec fn view(&self) -> SourceView {
        match self {
            ConfigSource::Nothing => SourceView::Nothing,
            ConfigSource::File { path } => SourceView::File { path: path@ },
            ConfigSource::Profile { path, profile } => SourceView::Profile {
                path: path@,
                profile: profile@,
            },
        }
    }
}

/// A profile that is written like the path of a file.
pub open spec fn is_path_like(profile: Seq<char>) -> bool {
    scan::contains(profile, "/"@) || scan::contains(profile, "\\"@) || scan::ends_with(
        profile,
        ".toml"@,
    )
}

/// Where the configuration stands, or why the options do not say it.
pub open spec fn config_source(
    config: Option<Seq<char>>,
    profile: Option<Seq<char>>,
    profile_config: Option<Seq<char>>,
) -> Result<SourceView, Seq<char>> {
    if config is Some && (profile is Some || profile_config is Some) {
        Err(
            "use either --config <path.toml> or --profile <name> [--profile-config <path.toml>], not both"@,
        )
    } else if profile_config is Some && profile is None {
        Err("--profile-config requires --profile <name>"@)
    } else {
        match (config, profile, profile_config) {
            (Some(path), _, _) => Ok(SourceView::File { path }),
            (None, Some(p), Some(path)) => Ok(SourceView::Profile { path, profile: p }),
            (None, Some(p), None) => if is_path_like(text::trim(p)) {
                Ok(SourceView::File { path: text::trim(p) })
            } else {
                Err(
                    "investigate --profile '"@ + p
                        + "' expects --profile-config <path.toml>; or use --config <path.toml> for single investigate configs"@,
                )
            },
            (None, None, _) => Ok(SourceView::Nothing),
        }
    }
}

/// Where the configuration of an investigation stands.
pub fn investigate_config_source(args: &InvestigateWorkflowArgs) -> (r: Result<ConfigSource, String>)
    ensures
        match r {
            Ok(s) => config_source(
                planner::optional_text(args.config),
                planner::optional_text(args.profile),
                planner::optional_text(args.profile_config),
            ) == Ok::<_, Seq<char>>(s@),
            Err(e) => config_source(
                planner::optional_text(args.config),
                planner::optional_text(args.profile),
                planner::optional_text(args.profile_config),
            ) == Err::<SourceView, _>(e@),
        },
{
    if args.config.is_some() && (args.profile.is_some() || args.profile_config.is_some()) {
        return Err(
            "use either --config <path.toml> or --profile <name> [--profile-config <path.toml>], not both".to_owned(),
        );
    }
    if args.profile_config.is_some() && args.profile.is_none() {
        return Err("--profile-config requires --profile <name>".to_owned());
    }
    match &args.config {
        Some(path) => {
            return Ok(ConfigSource::File { path: path.clone() });
        },
        None => {},
    }
    match &args.profile {
        None => Ok(ConfigSource::Nothing),
        Some(p) => match &args.profile_config {
            Some(path) => Ok(ConfigSource::Profile { path: path.clone(), profile: p.clone() }),
            None => {
                let t = trimmed(p.as_str());
                if mentions(t.as_str(), "/") || mentions(t.as_str(), "\\") || ends(
                    t.as_str(),
                    ".toml",
                ) {
                    Ok(ConfigSource::File { path: t })
                } else {
                    Err(
                        cat3(
                            "investigate --profile '",
                            p.as_str(),
                            "' expects --profile-config <path.toml>; or use --config <path.toml> for single investigate configs",
                        ),
                    )
                }
            },
        },
    }
}

// ---------------------------------------------------------------------------
// Sections of a configuration file
// ---------------------------------------------------------------------------

/// A TOML value. The entries of a table stand in ascending order of their
/// names, each name once; a date or time is given as it is written.
#[derive(Debug)]
pub enum Toml {
    Text(String),
    Whole(i64),
    Number(Num),
    Bool(bool),
    Moment(String),
    List(Vec<Toml>),
    Table(Vec<(String, Toml)>),
}

/// `toml::Value`, carried from the parser to its conversion.
#[verifier::external_type_specification]
#[verifier::external_body]
pub struct ExTomlValue(toml::Value);

/// What `toml::from_str` makes of a text: the value, or the words of its error.
pub uninterp spec fn toml_of(source: Seq<char>) -> Result<Toml, Seq<char>>;

/// Copies a parsed value of `toml` part by part: each kind of value becomes
/// the variant of the same kind. Nothing is claimed of the result here; what
/// the parser and this copy give together has the name `toml_of`.
#[verifier::external_body]
fn toml_from_value(v: toml::Value) -> (r: Toml) {
    match v {
        toml::Value::String(s) => Toml::Text(s),
        toml::Value::Integer(n) => Toml::Whole(n),
        toml::Value::Float(x) => Toml::Number(Num { bits: x.to_bits() }),
        toml::Value::Boolean(b) => Toml::Bool(b),
        toml::Value::Datetime(d) => Toml::Moment(d.to_string()),
        toml::Value::Array(xs) => Toml::List(xs.into_iter().map(toml_from_value).collect()),
        toml::Value::Table(t) => Toml::Table(
            t.into_iter().map(|(k, x)| (k, toml_from_value(x))).collect(),
        ),
    }
}

/// `toml::from_str` into a `toml::Value`, copied: the value that the text
/// denotes, or the error's words, each a function of the text alone.
#[verifier::external_body]
fn parse_toml(source: &str) -> (r: Result<Toml, String>)
    ensures
        match r {
            Ok(v) => toml_of(source@) == Ok::<Toml, Seq<char>>(v),
            Err(e) => toml_of(source@) == Err::<Toml, Seq<char>>(e@),
        },
{
    match toml::from_str::<toml::Value>(source) {
        Ok(v) => Ok(toml_from_value(v)),
        Err(e) => Err(e.to_string()),
    }
}

/// The entry of a table with the given name.
pub open spec fn entry(entries: Seq<(String, Toml)>, name: Seq<char>, i: int) -> Option<Toml>
    decreases entries.len() - i,
{
    if i < 0 || i >= entries.len() {
        None
    } else if entries[i].0@ == name {
        Some(entries[i].1)
    } else {
        entry(entries, name, i + 1)
    }
}

impl Toml {
    pub open spec fn get_spec(self, name: Seq<char>) -> Option<Toml> {
        match self {
            Toml::Table(es) => entry(es@, name, 0),
            _ => None,
        }
    }

    /// The entry with the given name.
    pub fn get(&self, name: &str) -> (r: Option<&Toml>)
        ensures
            match r {
                Some(v) => self.get_spec(name@) == Some(*v),
                None => self.get_spec(name@) is None,
            },
    {
        match self {
            Toml::Table(es) => {
                let mut i: usize = 0;
                while i < es.len()
                    invariant
                        i <= es.len(),
                        entry(es@, name@, i as int) == entry(es@, name@, 0),
                        *self == Toml::Table(*es),
                    decreases es.len() - i,
                {
                    if same(es[i].0.as_str(), name) {
                        return Some(&es[i].1);
                    }
                    i += 1;
                }
                None
            },
            _ => None,
        }
    }
}

/// A section of a configuration file.
#[derive(Debug)]
pub enum Section {
    Investigate,
    Profile { name: String },
    Root,
}

/// A section in views.
pub enum SectionView {
    Investigate,
    Profile { name: Seq<char> },
    Root,
}

impl View for Section {
    type V = SectionView;

    open spec fn view(&self) -> SectionView {
        match self {
            Section::Investigate => SectionView::Investigate,
            Section::Profile { name } => SectionView::Profile { name: name@ },
            Section::Root => SectionView::Root,
        }
    }
}

pub open spec fn section_result(r: Result<Section, String>) -> Result<SectionView, Seq<char>> {
    match r {
        Ok(s) => Ok(s@),
        Err(e) => Err(e@),
    }
}

pub open spec fn not_a_table(path: Seq<char>, context: Seq<char>) -> Seq<char> {
    "investigate config '"@ + path + "' "@ + context + " must be a TOML table"@
}

fn not_a_table_error(path: &str, context: &str) -> (r: String)
    ensures
        r@ == not_a_table(path@, context@),
{
    cat5("investigate config '", path, "' ", context, " must be a TOML table")
}

/// The section of a parsed file that holds an investigation's configuration:
/// `[investigate]`, else the only profile, else the file as a whole.
pub open spec fn investigate_section(root: Toml, path: Seq<char>) -> Result<
    SectionView,
    Seq<char>,
> {
    match root.get_spec("investigate"@) {
        Some(section) => if section is Table {
            Ok(SectionView::Investigate)
        } else {
            Err(not_a_table(path, "from [investigate]"@))
        },
        None => match root.get_spec("profiles"@) {
            Some(Toml::Table(ps)) => if ps@.len() == 0 {
                Err("investigate config '"@ + path + "' has empty [profiles] table"@)
            } else if ps@.len() > 1 {
                Err(
                    "investigate config '"@ + path
                        + "' has multiple [profiles.*] entries; choose one with --profile <name> --profile-config <path.toml>"@,
                )
            } else if ps@[0].1 is Table {
                Ok(SectionView::Profile { name: ps@[0].0@ })
            } else {
                Err(not_a_table(path, "from [profiles."@ + ps@[0].0@ + "]"@))
            },
            _ => if root is Table {
                Ok(SectionView::Root)
            } else {
                Err(not_a_table(path, "from root table"@))
            },
        },
    }
}

/// The section of a parsed file that holds an investigation's configuration.
pub fn choose_investigate_section(root: &Toml, path: &str) -> (r: Result<Section, String>)
    ensures
        section_result(r) == investigate_section(*root, path@),
{
    match root.get("investigate") {
        Some(section) => {
            return match section {
                Toml::Table(_) => Ok(Section::Investigate),
                _ => Err(not_a_table_error(path, "from [investigate]")),
            };
        },
        None => {},
    }
    match root.get("profiles") {
        Some(Toml::Table(ps)) => {
            if ps.len() == 0 {
                return Err(cat3("investigate config '", path, "' has empty [profiles] table"));
            }
            if ps.len() > 1 {
                return Err(
                    cat3(
                        "investigate config '",
                        path,
                        "' has multiple [profiles.*] entries; choose one with --profile <name> --profile-config <path.toml>",
                    ),
                );
            }
            match &ps[0].1 {
                Toml::Table(_) => Ok(Section::Profile { name: ps[0].0.clone() }),
                _ => {
                    let context = cat3("from [profiles.", ps[0].0.as_str(), "]");
                    Err(not_a_table_error(path, context.as_str()))
                },
            }
        },
        _ => match root {
            Toml::Table(_) => Ok(Section::Root),
            _ => Err(not_a_table_error(path, "from root table")),
        },
    }
}

/// Entries whose name differs from the given one at most in case.
pub open spec fn entry_named(name: Seq<char>) -> spec_fn((String, Toml)) -> bool {
    |e: (String, Toml)| text::same_ignoring_case(e.0@, name)
}

/// The section of a parsed file that holds a profile.
pub open spec fn profile_section(root: Toml, path: Seq<char>, profile: Seq<char>) -> Result<
    SectionView,
    Seq<char>,
> {
    match root.get_spec("profiles"@) {
        Some(Toml::Table(ps)) => match list::first(ps@, entry_named(text::trim(profile))) {
            Some(e) => if e.1 is Table {
                Ok(SectionView::Profile { name: e.0@ })
            } else {
                Err(not_a_table(path, "for profile '"@ + e.0@ + "'"@))
            },
            None => Err("investigate profile '"@ + profile + "' not found in "@ + path),
        },
        _ => Err(
            "investigate profile config '"@ + path
                + "' must contain [profiles.<name>] entries"@,
        ),
    }
}

/// The section of a parsed file that holds a profile.
#[verifier::loop_isolation(false)]
pub fn choose_profile_section(root: &Toml, path: &str, profile_raw: &str) -> (r: Result<
    Section,
    String,
>)
    ensures
        section_result(r) == profile_section(*root, path@, profile_raw@),
{
    match root.get("profiles") {
        Some(Toml::Table(ps)) => {
            let profile = trimmed(profile_raw);
            let ghost p = entry_named(profile@);
            let mut i: usize = 0;
            while i < ps.len()
                invariant
                    i <= ps.len(),
                    list::first_from(ps@, p, i as int) == list::first_from(ps@, p, 0),
                decreases ps.len() - i,
            {
                if eq_ignore_case(ps[i].0.as_str(), profile.as_str()) {
                    return match &ps[i].1 {
                        Toml::Table(_) => Ok(Section::Profile { name: ps[i].0.clone() }),
                        _ => {
                            let context = cat3("for profile '", ps[i].0.as_str(), "'");
                            Err(not_a_table_error(path, context.as_str()))
                        },
                    };
                }
                i += 1;
            }
            Err(cat4("investigate profile '", profile_raw, "' not found in ", path))
        },
        _ => Err(
            cat3(
                "investigate profile config '",
                path,
                "' must contain [profiles.<name>] entries",
            ),
        ),
    }
}

/// The section of a configuration file's text that holds an investigation's configuration.
pub fn load_investigate_config(source: &str, path: &str) -> (r: Result<Section, String>)
    ensures
        section_result(r) == (match toml_of(source@) {
            Ok(root) => investigate_section(root, path@),
            Err(e) => Err("failed to parse investigate config '"@ + path@ + "': "@ + e),
        }),
{
    match parse_toml(source) {
        Ok(root) => choose_investigate_section(&root, path),
        Err(e) => Err(
            cat4("failed to parse investigate config '", path, "': ", e.as_str()),
        ),
    }
}

/// The section of a configuration file's text that holds a profile.
pub fn load_investigate_profile(source: &str, path: &str, profile_raw: &str) -> (r: Result<
    Section,
    String,
>)
    ensures
        section_result(r) == (match toml_of(source@) {
            Ok(root) => profile_section(root, path@, profile_raw@),
            Err(e) => Err("failed to parse investigate profile config '"@ + path@ + "': "@ + e),
        }),
{
    match parse_toml(source) {
        Ok(root) => choose_profile_section(&root, path, profile_raw),
        Err(e) => Err(
            cat4("failed to parse investigate profile config '", path, "': ", e.as_str()),
        ),
    }
}

// ---------------------------------------------------------------------------
// Profiles of a table analysis
// ---------------------------------------------------------------------------

/// Options that a profile sets.
#[derive(Clone, Debug)]
pub struct AnalyzeProfile {
    pub group_by: Option<Vec<String>>,
    pub metrics: Option<Vec<String>>,
    pub where_clauses: Option<Vec<String>>,
    pub rank_by: Option<String>,
    pub top: Option<usize>,
    pub min_records: Option<u64>,
    pub auto_group_k: Option<usize>,
}

/// A file of profiles, each name once.
#[derive(Clone, Debug)]
pub struct ProfileFile {
    pub path: String,
    pub profiles: Vec<(String, AnalyzeProfile)>,
}

/// The list itself, or the profile's where the list is empty.
pub open spec fn list_or(own: Vec<String>, profile: Option<Vec<String>>) -> Vec<String> {
    if own@.len() == 0 && profile is Some {
        profile->0
    } else {
        own
    }
}

/// `out` are the options with the profile's values where an option has its default.
pub open spec fn with_profile(args: AnalyzeArgs, entry: AnalyzeProfile, out: AnalyzeArgs) -> bool {
    &&& out.group_by@ == list_or(args.group_by, entry.group_by)@
    &&& out.metrics@ == list_or(args.metrics, entry.metrics)@
    &&& out.where_clauses@ == list_or(args.where_clauses, entry.where_clauses)@
    &&& out.rank_by == (if args.rank_by is None {
        entry.rank_by
    } else {
        args.rank_by
    })
    &&& out.top == (if args.top == 20 && entry.top is Some {
        entry.top->0
    } else {
        args.top
    })
    &&& out.min_records == (if args.min_records == 1 && entry.min_records is Some {
        entry.min_records->0
    } else {
        args.min_records
    })
    &&& out.auto_group_k == (if args.auto_group_k == 5 && entry.auto_group_k is Some {
        entry.auto_group_k->0
    } else {
        args.auto_group_k
    })
    &&& out == AnalyzeArgs {
        group_by: out.group_by,
        metrics: out.metrics,
        where_clauses: out.where_clauses,
        rank_by: out.rank_by,
        top: out.top,
        min_records: out.min_records,
        auto_group_k: out.auto_group_k,
        ..args
    }
}

fn choose_list(own: &Vec<String>, profile: &Option<Vec<String>>) -> (r: Vec<String>)
    ensures
        r@ == list_or(*own, *profile)@,
{
    match profile {
        Some(v) => {
            if own.len() == 0 {
                copy_all(v)
            } else {
                copy_all(own)
            }
        },
        None => copy_all(own),
    }
}

/// Sets the options that have their default to the profile's values.
pub fn apply_profile_entry(args: &mut AnalyzeArgs, entry: &AnalyzeProfile)
    ensures
        with_profile(*old(args), *entry, *final(args)),
{
    let group_by = choose_list(&args.group_by, &entry.group_by);
    let metrics = choose_list(&args.metrics, &entry.metrics);
    let where_clauses = choose_list(&args.where_clauses, &entry.where_clauses);
    let rank_by = match &args.rank_by {
        Some(v) => Some(v.clone()),
        None => match &entry.rank_by {
            Some(v) => Some(v.clone()),
            None => None,
        },
    };
    let top: usize = match entry.top {
        Some(v) => if args.top == 20 {
            v
        } else {
            args.top
        },
        None => args.top,
    };
    let min_records: u64 = match entry.min_records {
        Some(v) => if args.min_records == 1 {
            v
        } else {
            args.min_records
        },
        None => args.min_records,
    };
    let auto_group_k: usize = match entry.auto_group_k {
        Some(v) => if args.auto_group_k == 5 {
            v
        } else {
            args.auto_group_k
        },
        None => args.auto_group_k,
    };
    args.group_by = group_by;
    args.metrics = metrics;
    args.where_clauses = where_clauses;
    args.rank_by = rank_by;
    args.top = top;
    args.min_records = min_records;
    args.auto_group_k = auto_group_k;
}

/// Profiles with exactly this name.
pub open spec fn profile_is(name: Seq<char>) -> spec_fn((String, AnalyzeProfile)) -> bool {
    |p: (String, AnalyzeProfile)| p.0@ == name
}

/// Profiles with this name, whatever the case of its letters.
pub open spec fn profile_like(name: Seq<char>) -> spec_fn((String, AnalyzeProfile)) -> bool {
    |p: (String, AnalyzeProfile)| text::same_ignoring_case(p.0@, name)
}

/// The profile that a name means: the one of exactly that name, else the first
/// that differs only in case.
pub open spec fn named_profile(
    profiles: Seq<(String, AnalyzeProfile)>,
    name: Seq<char>,
) -> Option<(String, AnalyzeProfile)> {
    match list::first(profiles, profile_is(name)) {
        Some(p) => Some(p),
        None => list::first(profiles, profile_like(name)),
    }
}

/// The index of the profile that a name means.
pub fn find_profile(profiles: &Vec<(String, AnalyzeProfile)>, name: &str) -> (r: Option<usize>)
    ensures
        match r {
            Some(i) => i < profiles.len() && named_profile(profiles@, name@) == Some(
                profiles@[i as int],
            ),
            None => named_profile(profiles@, name@) is None,
        },
{
    let mut i: usize = 0;
    while i < profiles.len()
        invariant
            i <= profiles.len(),
            list::first_from(profiles@, profile_is(name@), i as int) == list::first_from(
                profiles@,
                profile_is(name@),
                0,
            ),
        decreases profiles.len() - i,
    {
        if same(profiles[i].0.as_str(), name) {
            return Some(i);
        }
        i += 1;
    }
    let mut k: usize = 0;
    while k < profiles.len()
        invariant
            k <= profiles.len(),
            list::first(profiles@, profile_is(name@)) is None,
            list::first_from(profiles@, profile_like(name@), k as int) == list::first_from(
                profiles@,
                profile_like(name@),
                0,
            ),
        decreases profiles.len() - k,
    {
        if eq_ignore_case(profiles[k].0.as_str(), name) {
            return Some(k);
        }
        k += 1;
    }
    None
}

/// The settings of a built-in profile for groups, rows and records.
pub open spec fn builtin_profile(lowered: Seq<char>) -> Option<(usize, usize, u64)> {
    if lowered == "exec"@ {
        Some((3, 12, 20))
    } else if lowered == "segment"@ {
        Some((5, 20, 20))
    } else if lowered == "supplier"@ {
        Some((3, 20, 10))
    } else {
        None
    }
}

fn find_builtin(lowered: &str) -> (r: Option<(usize, usize, u64)>)
    ensures
        r == builtin_profile(lowered@),
{
    if same(lowered, "exec") {
        Some((3, 12, 20))
    } else if same(lowered, "segment") {
        Some((5, 20, 20))
    } else if same(lowered, "supplier") {
        Some((3, 20, 10))
    } else {
        None
    }
}

/// The options with a built-in profile's settings where an option has its default.
pub open spec fn with_builtin(args: AnalyzeArgs, settings: (usize, usize, u64)) -> AnalyzeArgs {
    AnalyzeArgs {
        auto_group_k: if args.auto_group_k == 5 {
            settings.0
        } else {
            args.auto_group_k
        },
        top: if args.top == 20 {
            settings.1
        } else {
            args.top
        },
        min_records: if args.min_records == 1 {
            settings.2
        } else {
            args.min_records
        },
        ..args
    }
}

pub open spec fn unknown_profile_message(profile: Seq<char>) -> Seq<char> {
    "unknown profile '"@ + profile
        + "'. Built-ins: exec, segment, supplier. Or pass --profile-config <path.toml>."@
}

/// The options with the settings of a built-in profile whose name is given in
/// lower case.
pub fn apply_builtin_profile(args: AnalyzeArgs, profile_raw: &str, lowered: &str) -> (r: Result<
    AnalyzeArgs,
    String,
>)
    ensures
        match r {
            Ok(out) => builtin_profile(lowered@) is Some && out == with_builtin(
                args,
                builtin_profile(lowered@)->0,
            ),
            Err(e) => builtin_profile(lowered@) is None && e@ == unknown_profile_message(
                profile_raw@,
            ),
        },
{
    match find_builtin(lowered) {
        Some(s) => {
            let mut out = args;
            if out.auto_group_k == 5 {
                out.auto_group_k = s.0;
            }
            if out.top == 20 {
                out.top = s.1;
            }
            if out.min_records == 1 {
                out.min_records = s.2;
            }
            Ok(out)
        },
        None => Err(
            cat3(
                "unknown profile '",
                profile_raw,
                "'. Built-ins: exec, segment, supplier. Or pass --profile-config <path.toml>.",
            ),
        ),
    }
}

/// The options of a table analysis with its profile: an entry of the file that
/// was read, or a built-in profile where no file is given.
pub fn apply_analyze_profile(args: AnalyzeArgs, file: Option<&ProfileFile>) -> (r: Result<
    AnalyzeArgs,
    String,
>)
    ensures
        match args.profile {
            None => r == Ok::<AnalyzeArgs, String>(args),
            Some(raw) => match file {
                Some(f) => match named_profile(f.profiles@, text::trim(raw@)) {
                    Some(p) => r is Ok && with_profile(args, p.1, r->Ok_0),
                    None => r is Err && r->Err_0@ == "profile '"@ + raw@ + "' not found in "@
                        + f.path@,
                },
                None => match builtin_profile(text::lower_case(text::trim(raw@))) {
                    Some(s) => r == Ok::<AnalyzeArgs, String>(with_builtin(args, s)),
                    None => r is Err && r->Err_0@ == unknown_profile_message(raw@),
                },
            },
        },
{
    let raw = match &args.profile {
        Some(p) => p.clone(),
        None => {
            return Ok(args);
        },
    };
    let profile = trimmed(raw.as_str());
    match file {
        Some(f) => match find_profile(&f.profiles, profile.as_str()) {
            Some(i) => {
                let mut out = args;
                apply_profile_entry(&mut out, &f.profiles[i].1);
                Ok(out)
            },
            None => Err(cat4("profile '", raw.as_str(), "' not found in ", f.path.as_str())),
        },
        None => {
            let lowered = to_lower_case(profile.as_str());
            apply_builtin_profile(args, raw.as_str(), lowered.as_str())
        },
    }
}

// ---------------------------------------------------------------------------
// Inputs
// ---------------------------------------------------------------------------

/// A query, given as text or as the path of a file that holds it.
#[derive(Debug)]
pub enum QueryText {
    Inline(String),
    File(String),
}

/// Where the rows of an analysis come from.
#[derive(Debug)]
pub enum InputSource {
    Table { path: String },
    Query { url: String, query: QueryText },
}

/// Where the two sides of an investigation come from.
#[derive(Debug)]
pub enum PairSource {
    Files { base: String, new: String },
    Query { url: String, query: QueryText },
}

pub open spec fn one_source_message() -> Seq<char> {
    "choose exactly one input source: --input <csv> OR --postgres-url + (--query | --query-file)"@
}

/// A table and anything of a database are given at once.
pub open spec fn table_and_database(args: AnalyzeArgs) -> bool {
    args.input is Some && (args.postgres_url is Some || args.query is Some || args.query_file is Some
        || args.postgres_ca_file is Some || args.postgres_ssl_mode != PostgresSslMode::Prefer)
}

/// Where the rows of an analysis come from: a table, or a query to the
/// database that the options or `database_url` name.
pub fn analyze_input_source(args: &AnalyzeArgs, database_url: Option<String>) -> (r: Result<
    InputSource,
    String,
>)
    ensures
        ({
            let url = if args.postgres_url is Some {
                args.postgres_url
            } else {
                database_url
            };
            match r {
                Ok(InputSource::Table { path }) => args.input == Some(path) && !table_and_database(
                    *args,
                ),
                Ok(InputSource::Query { url: u, query: QueryText::Inline(q) }) => args.input is None
                    && url == Some(u) && args.query == Some(q) && args.query_file is None,
                Ok(InputSource::Query { url: u, query: QueryText::File(f) }) => args.input is None
                    && url == Some(u) && args.query is None && args.query_file == Some(f),
                Err(e) => if args.input is Some {
                    table_and_database(*args) && e@ == one_source_message()
                } else if url is Some {
                    if args.query is None && args.query_file is None {
                        e@ == "postgres analyze requires one of --query or --query-file"@
                    } else {
                        args.query is Some && args.query_file is Some && e@ == one_source_message()
                    }
                } else if args.query is Some || args.query_file is Some {
                    e@ == "--query/--query-file require --postgres-url (or DATABASE_URL env var)"@
                } else {
                    e@ == one_source_message()
                },
            }
        }),
{
    match &args.input {
        Some(path) => {
            if args.postgres_url.is_some() || args.query.is_some() || args.query_file.is_some()
                || args.postgres_ca_file.is_some() || args.postgres_ssl_mode
                != PostgresSslMode::Prefer {
                return Err(
                    "choose exactly one input source: --input <csv> OR --postgres-url + (--query | --query-file)".to_owned(),
                );
            }
            return Ok(InputSource::Table { path: path.clone() });
        },
        None => {},
    }
    let url = match &args.postgres_url {
        Some(u) => Some(u.clone()),
        None => database_url,
    };
    match url {
        Some(u) => match (&args.query, &args.query_file) {
            (Some(q), None) => Ok(
                InputSource::Query { url: u, query: QueryText::Inline(q.clone()) },
            ),
            (None, Some(f)) => Ok(InputSource::Query { url: u, query: QueryText::File(f.clone()) }),
            (None, None) => Err(
                "postgres analyze requires one of --query or --query-file".to_owned(),
            ),
            (Some(_), Some(_)) => Err(
                "choose exactly one input source: --input <csv> OR --postgres-url + (--query | --query-file)".to_owned(),
            ),
        },
        None => {
            if args.query.is_some() || args.query_file.is_some() {
                Err(
                    "--query/--query-file require --postgres-url (or DATABASE_URL env var)".to_owned(),
                )
            } else {
                Err(
                    "choose exactly one input source: --input <csv> OR --postgres-url + (--query | --query-file)".to_owned(),
                )
            }
        },
    }
}

/// Where the two sides of an investigation come from: two files, or a query to
/// the database that the options or `database_url` name, split by period.
pub fn investigate_input_source(args: &InvestigateWorkflowArgs, database_url: Option<String>) -> (r:
    Result<PairSource, String>)
    ensures
        ({
            let pair = args.base is Some || args.new is Some;
            let asked = args.query is Some || args.query_file is Some || args.postgres_url is Some;
            let url = if args.postgres_url is Some {
                args.postgres_url
            } else {
                database_url
            };
            match r {
                Ok(PairSource::Files { base, new }) => !asked && args.base == Some(base) && args.new
                    == Some(new),
                Ok(PairSource::Query { url: u, query: QueryText::Inline(q) }) => !pair && url
                    == Some(u) && args.query == Some(q) && args.query_file is None,
                Ok(PairSource::Query { url: u, query: QueryText::File(f) }) => !pair && url == Some(
                    u,
                ) && args.query is None && args.query_file == Some(f),
                Err(e) => if pair && asked {
                    e@
                        == "choose one input mode: (--base and --new) OR (--postgres-url + --query/--query-file)"@
                } else if pair {
                    if args.base is None {
                        e@ == "--base is required when using file input mode"@
                    } else {
                        args.new is None && e@ == "--new is required when using file input mode"@
                    }
                } else if url is None {
                    e@
                        == "missing input: provide --base/--new OR --postgres-url (or DATABASE_URL) + --query/--query-file"@
                } else if args.query is Some && args.query_file is Some {
                    e@ == "use only one of --query or --query-file"@
                } else {
                    args.query is None && args.query_file is None && e@
                        == "postgres investigate requires one of --query or --query-file"@
                },
            }
        }),
{
    let pair: bool = args.base.is_some() || args.new.is_some();
    let asked: bool = args.query.is_some() || args.query_file.is_some()
        || args.postgres_url.is_some();
    if pair && asked {
        return Err(
            "choose one input mode: (--base and --new) OR (--postgres-url + --query/--query-file)".to_owned(),
        );
    }
    if pair {
        return match (&args.base, &args.new) {
            (None, _) => Err("--base is required when using file input mode".to_owned()),
            (Some(_), None) => Err("--new is required when using file input mode".to_owned()),
            (Some(b), Some(n)) => Ok(PairSource::Files { base: b.clone(), new: n.clone() }),
        };
    }
    let url = match &args.postgres_url {
        Some(u) => Some(u.clone()),
        None => database_url,
    };
    match url {
        None => Err(
            "missing input: provide --base/--new OR --postgres-url (or DATABASE_URL) + --query/--query-file".to_owned(),
        ),
        Some(u) => match (&args.query, &args.query_file) {
            (Some(q), None) => Ok(PairSource::Query { url: u, query: QueryText::Inline(q.clone()) }),
            (None, Some(f)) => Ok(PairSource::Query { url: u, query: QueryText::File(f.clone()) }),
            (Some(_), Some(_)) => Err("use only one of --query or --query-file".to_owned()),
            (None, None) => Err(
                "postgres investigate requires one of --query or --query-file".to_owned(),
            ),
        },
    }
}

/// The statement that exports a query's result as a table with a header.
pub fn copy_statement(query: &str) -> (r: String)
    ensures
        r@ == "COPY ("@ + text::trim(query@) + ") TO STDOUT WITH (FORMAT CSV, HEADER TRUE)"@,
{
    let q = trimmed(query);
    cat3("COPY (", q.as_str(), ") TO STDOUT WITH (FORMAT CSV, HEADER TRUE)")
}

/// A built-in profile names no columns: groups, metrics, filters and the
/// ranking stay as they were asked for.
pub proof fn law_builtin_profiles_name_no_columns(args: AnalyzeArgs, settings: (usize, usize, u64))
    ensures
        with_builtin(args, settings).group_by == args.group_by,
        with_builtin(args, settings).metrics == args.metrics,
        with_builtin(args, settings).where_clauses == args.where_clauses,
        with_builtin(args, settings).rank_by == args.rank_by,
{
}

/// What the command line gives wins over a profile, and what it leaves as it is
/// by itself is taken from the profile.
pub proof fn law_profiles_fill_in(args: AnalyzeArgs, entry: AnalyzeProfile, out: AnalyzeArgs)
    requires
        with_profile(args, entry, out),
    ensures
        args.group_by@.len() > 0 || entry.group_by is None ==> out.group_by@ == args.group_by@,
        args.group_by@.len() == 0 && entry.group_by is Some ==> out.group_by@
            == entry.group_by->0@,
        args.metrics@.len() > 0 || entry.metrics is None ==> out.metrics@ == args.metrics@,
        args.metrics@.len() == 0 && entry.metrics is Some ==> out.metrics@ == entry.metrics->0@,
        args.where_clauses@.len() > 0 || entry.where_clauses is None ==> out.where_clauses@
            == args.where_clauses@,
        args.where_clauses@.len() == 0 && entry.where_clauses is Some ==> out.where_clauses@
            == entry.where_clauses->0@,
        args.rank_by is Some ==> out.rank_by == args.rank_by,
        args.rank_by is None ==> out.rank_by == entry.rank_by,
        args.top != 20 || entry.top is None ==> out.top == args.top,
        args.top == 20 && entry.top is Some ==> out.top == entry.top->0,
        args.min_records != 1 || entry.min_records is None ==> out.min_records
            == args.min_records,
        args.min_records == 1 && entry.min_records is Some ==> out.min_records
            == entry.min_records->0,
        args.auto_group_k != 5 || entry.auto_group_k is None ==> out.auto_group_k
            == args.auto_group_k,
        args.auto_group_k == 5 && entry.auto_group_k is Some ==> out.auto_group_k
            == entry.auto_group_k->0,
        out.input == args.input && out.date_column == args.date_column && out.agg == args.agg,
{
}

/// A profile is found under its own spelling before any other, and else under
/// one that differs in case alone; none is found only where no name is alike.
pub proof fn law_profiles_are_found_by_name(
    profiles: Seq<(String, AnalyzeProfile)>,
    name: Seq<char>,
    i: int,
)
    requires
        0 <= i < profiles.len(),
    ensures
        match named_profile(profiles, name) {
            Some(p) => {
                &&& profiles.contains(p)
                &&& profiles[i].0@ == name ==> p.0@ == name
                &&& p.0@ == name || text::same_ignoring_case(p.0@, name)
            },
            None => profiles[i].0@ != name && !text::same_ignoring_case(profiles[i].0@, name),
        },
{
    list::lemma_first_from(profiles, profile_is(name), 0);
    list::lemma_first_from(profiles, profile_like(name), 0);
    if profiles[i].0@ == name {
        assert(profile_is(name)(profiles[i]));
    }
    if text::same_ignoring_case(profiles[i].0@, name) {
        assert(profile_like(name)(profiles[i]));
    }
}

/// A built-in profile changes the number of groups, of segments and of records
/// only where the command line leaves them as they are by themselves.
pub proof fn law_builtin_profiles_fill_in(args: AnalyzeArgs, settings: (usize, usize, u64))
    ensures
        args.auto_group_k != 5 ==> with_builtin(args, settings).auto_group_k == args.auto_group_k,
        args.auto_group_k == 5 ==> with_builtin(args, settings).auto_group_k == settings.0,
        args.top != 20 ==> with_builtin(args, settings).top == args.top,
        args.top == 20 ==> with_builtin(args, settings).top == settings.1,
        args.min_records != 1 ==> with_builtin(args, settings).min_records == args.min_records,
        args.min_records == 1 ==> with_builtin(args, settings).min_records == settings.2,
{
}

/// Options are read from one source: a file of its own, or a profile of a file
/// of profiles; a profile that is itself a path is that file. Naming both, or a
/// file of profiles without a profile, is refused.
pub proof fn law_options_come_from_one_source(
    config: Option<Seq<char>>,
    profile: Option<Seq<char>>,
    profile_config: Option<Seq<char>>,
)
    ensures
        config_source(config, profile, profile_config) is Err <==> (config is Some && (
        profile is Some || profile_config is Some)) || (profile is None && profile_config is Some)
            || (config is None && profile_config is None && profile is Some && !is_path_like(
            text::trim(profile->0),
        )),
        match config_source(config, profile, profile_config) {
            Ok(SourceView::Nothing) => config is None && profile is None,
            Ok(SourceView::File { path }) => config == Some(path) || (config is None
                && profile is Some && text::trim(profile->0) == path && profile_config is None),
            Ok(SourceView::Profile { path, profile: p }) => profile == Some(p) && profile_config
                == Some(path),
            Err(_) => true,
        },
{
}

proof fn lemma_entry(entries: Seq<(String, Toml)>, name: Seq<char>, i: int)
    requires
        0 <= i <= entries.len(),
    ensures
        match entry(entries, name, i) {
            Some(v) => exists|k: int|
                i <= k < entries.len() && (#[trigger] entries[k]).0@ == name && entries[k].1 == v,
            None => forall|k: int| i <= k < entries.len() ==> (#[trigger] entries[k]).0@ != name,
        },
    decreases entries.len() - i,
{
    if i < entries.len() {
        lemma_entry(entries, name, i + 1);
        if entries[i].0@ != name && entry(entries, name, i) is Some {
            let v = entry(entries, name, i)->0;
            let k = choose|k: int|
                i + 1 <= k < entries.len() && (#[trigger] entries[k]).0@ == name && entries[k].1
                    == v;
            assert(entries[k].0@ == name);
        }
    }
}

/// What a table of options holds under a name is a value that stands there under
/// exactly that name.
pub proof fn law_entries_are_found_by_name(entries: Vec<(String, Toml)>, name: Seq<char>)
    ensures
        match Toml::Table(entries).get_spec(name) {
            Some(v) => exists|k: int|
                0 <= k < entries@.len() && (#[trigger] entries@[k]).0@ == name && entries@[k].1
                    == v,
            None => forall|k: int| 0 <= k < entries@.len() ==> (#[trigger] entries@[k]).0@ != name,
        },
{
    lemma_entry(entries@, name, 0);
}

/// The section of a profile bears the profile's name without regard to case and
/// is a table.
pub proof fn law_profile_sections_bear_their_name(
    root: Toml,
    path: Seq<char>,
    profile: Seq<char>,
    name: Seq<char>,
)
    requires
        profile_section(root, path, profile) == Ok::<SectionView, Seq<char>>(
            SectionView::Profile { name },
        ),
    ensures
        text::same_ignoring_case(name, text::trim(profile)),
        match root.get_spec("profiles"@) {
            Some(Toml::Table(ps)) => exists|k: int|
                0 <= k < ps@.len() && (#[trigger] ps@[k]).0@ == name && ps@[k].1 is Table,
            _ => false,
        },
{
    if let Some(Toml::Table(ps)) = root.get_spec("profiles"@) {
        list::lemma_first_from(ps@, entry_named(text::trim(profile)), 0);
        if let Some(k) = list::first_from(ps@, entry_named(text::trim(profile)), 0) {
            assert(entry_named(text::trim(profile))(ps@[k]));
            assert(ps@[k].0@ == name);
        }
    }
}

} // verus!
