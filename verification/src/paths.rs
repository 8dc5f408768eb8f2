//! Paths of inputs and outputs, as text with `/` between components.

use vstd::prelude::*;

use crate::args;
use crate::args::{
    suggest_profile_format_extension, AnalyzeArgs, AnalyzeDriversArgs, CompareOutputFormat,
    InvestigateArgs, InvestigateInputKind, InvestigateOutputFormat, InvestigateWorkflowArgs,
    OutputFormat, SuggestProfileFormat,
};
use crate::scan;
use crate::scan::begins;
use crate::text;
use crate::text::{blank, cat2, cat3, chars_of, same, text_of, to_lower};

verus! {

// ---------------------------------------------------------------------------
// Components
// ---------------------------------------------------------------------------

/// Where the last component ends, looking at the first `e` characters:
/// separators at the end do not count, nor do `.` components there.
pub open spec fn body_end(p: Seq<char>, e: int) -> int
    decreases e,
{
    if e <= 0 || e > p.len() {
        0
    } else if p[e - 1] == '/' {
        body_end(p, e - 1)
    } else if e >= 2 && p[e - 1] == '.' && p[e - 2] == '/' {
        body_end(p, e - 1)
    } else {
        e
    }
}

/// Where the component that ends at `e` begins.
pub open spec fn component_start(p: Seq<char>, e: int) -> int
    decreases e,
{
    if e <= 0 || e > p.len() || p[e - 1] == '/' {
        e
    } else {
        component_start(p, e - 1)
    }
}

/// Where the file name of a path stands, if the path ends in one.
pub open spec fn name_span(p: Seq<char>) -> Option<(int, int)> {
    let b = body_end(p, p.len() as int);
    let a = component_start(p, b);
    let name = p.subrange(a, b);
    if b <= 0 || name == ".."@ || name == "."@ {
        None
    } else {
        Some((a, b))
    }
}

/// The position of the last `.` among `p[a..e]`, if there is one.
pub open spec fn last_dot(p: Seq<char>, a: int, e: int) -> Option<int>
    decreases e - a,
{
    if e <= a || e > p.len() {
        None
    } else if p[e - 1] == '.' {
        Some(e - 1)
    } else {
        last_dot(p, a, e - 1)
    }
}

/// Where the file name's stem ends and its extension, if it has one, begins: at
/// its last `.`, unless that is its first character.
pub open spec fn stem_end(p: Seq<char>, span: (int, int)) -> int {
    match last_dot(p, span.0, span.1) {
        Some(k) => if k == span.0 {
            span.1
        } else {
            k
        },
        None => span.1,
    }
}

/// The file name without its extension.
pub open spec fn file_stem(p: Seq<char>) -> Option<Seq<char>> {
    match name_span(p) {
        Some(span) => Some(p.subrange(span.0, stem_end(p, span))),
        None => None,
    }
}

/// The extension of the file name.
pub open spec fn extension(p: Seq<char>) -> Option<Seq<char>> {
    match name_span(p) {
        Some(span) => if stem_end(p, span) < span.1 {
            Some(p.subrange(stem_end(p, span) + 1, span.1))
        } else {
            None
        },
        None => None,
    }
}

/// The path with another extension; a path without a file name stays.
pub open spec fn with_extension(p: Seq<char>, ext: Seq<char>) -> Seq<char> {
    match name_span(p) {
        Some(span) => p.take(stem_end(p, span)) + "."@ + ext,
        None => p,
    }
}

/// A path below a directory.
pub open spec fn joined(dir: Seq<char>, name: Seq<char>) -> Seq<char> {
    if dir.len() == 0 {
        name
    } else if dir.last() == '/' {
        dir + name
    } else {
        dir + "/"@ + name
    }
}

proof fn lemma_body_end(p: Seq<char>, e: int)
    requires
        0 <= e <= p.len(),
    ensures
        0 <= body_end(p, e) <= e,
    decreases e,
{
    if e > 0 {
        if p[e - 1] == '/' || (e >= 2 && p[e - 1] == '.' && p[e - 2] == '/') {
            lemma_body_end(p, e - 1);
        }
    }
}

proof fn lemma_component_start(p: Seq<char>, e: int)
    requires
        0 <= e <= p.len(),
    ensures
        0 <= component_start(p, e) <= e,
    decreases e,
{
    if e > 0 && p[e - 1] != '/' {
        lemma_component_start(p, e - 1);
    }
}

fn find_name(v: &Vec<char>) -> (r: Option<(usize, usize)>)
    ensures
        match r {
            Some(s) => name_span(v@) == Some((s.0 as int, s.1 as int)) && s.0 <= s.1 <= v.len(),
            None => name_span(v@) is None,
        },
{
    let mut b: usize = v.len();
    while b > 0 && (v[b - 1] == '/' || (b >= 2 && v[b - 1] == '.' && v[b - 2] == '/'))
        invariant
            b <= v.len(),
            body_end(v@, b as int) == body_end(v@, v@.len() as int),
        decreases b,
    {
        b -= 1;
    }
    assert(b == body_end(v@, v@.len() as int));
    let mut a: usize = b;
    while a > 0 && v[a - 1] != '/'
        invariant
            a <= b <= v.len(),
            component_start(v@, a as int) == component_start(v@, b as int),
        decreases a,
    {
        a -= 1;
    }
    assert(a == component_start(v@, b as int));
    if b == 0 {
        return None;
    }
    let name = text_of(v, a, b);
    if same(name.as_str(), "..") || same(name.as_str(), ".") {
        return None;
    }
    Some((a, b))
}

fn find_stem_end(v: &Vec<char>, a: usize, b: usize) -> (r: usize)
    requires
        a <= b <= v.len(),
    ensures
        r == stem_end(v@, (a as int, b as int)),
        a <= r <= b,
{
    let mut e: usize = b;
    while e > a && v[e - 1] != '.'
        invariant
            a <= e <= b <= v.len(),
            last_dot(v@, a as int, e as int) == last_dot(v@, a as int, b as int),
        decreases e,
    {
        e -= 1;
    }
    if e > a {
        if e - 1 == a {
            b
        } else {
            e - 1
        }
    } else {
        b
    }
}

/// The file name of a path without its extension.
pub fn path_stem(p: &str) -> (r: Option<String>)
    ensures
        match r {
            Some(s) => file_stem(p@) == Some(s@),
            None => file_stem(p@) is None,
        },
{
    let v = chars_of(p);
    match find_name(&v) {
        Some((a, b)) => {
            let k: usize = find_stem_end(&v, a, b);
            Some(text_of(&v, a, k))
        },
        None => None,
    }
}

/// The extension of a path's file name.
pub fn path_extension(p: &str) -> (r: Option<String>)
    ensures
        match r {
            Some(s) => extension(p@) == Some(s@),
            None => extension(p@) is None,
        },
{
    let v = chars_of(p);
    match find_name(&v) {
        Some((a, b)) => {
            let k: usize = find_stem_end(&v, a, b);
            if k < b {
                Some(text_of(&v, k + 1, b))
            } else {
                None
            }
        },
        None => None,
    }
}

/// The path with another extension.
pub fn path_with_extension(p: &str, ext: &str) -> (r: String)
    ensures
        r@ == with_extension(p@, ext@),
{
    let v = chars_of(p);
    match find_name(&v) {
        Some((a, b)) => {
            let k: usize = find_stem_end(&v, a, b);
            let head = text_of(&v, 0, k);
            assert(head@ =~= p@.take(k as int));
            cat3(head.as_str(), ".", ext)
        },
        None => p.to_owned(),
    }
}

/// A path below a directory.
pub fn join_path(dir: &str, name: &str) -> (r: String)
    ensures
        r@ == joined(dir@, name@),
{
    let v = chars_of(dir);
    if v.len() == 0 {
        name.to_owned()
    } else if v[v.len() - 1] == '/' {
        cat2(dir, name)
    } else {
        cat3(dir, "/", name)
    }
}

// ---------------------------------------------------------------------------
// Artifacts
// ---------------------------------------------------------------------------

/// The files that a factor run writes into a directory.
pub fn list_artifact_paths(out_dir: &str) -> (r: Vec<String>)
    ensures
        text::views(r@) == seq![
            joined(out_dir@, "factors.json"@),
            joined(out_dir@, "exposures.csv"@),
            joined(out_dir@, "attribution.csv"@),
            joined(out_dir@, "outliers.csv"@),
        ],
{
    let mut out: Vec<String> = Vec::new();
    out.push(join_path(out_dir, "factors.json"));
    out.push(join_path(out_dir, "exposures.csv"));
    out.push(join_path(out_dir, "attribution.csv"));
    out.push(join_path(out_dir, "outliers.csv"));
    assert(text::views(out@) =~= seq![
        joined(out_dir@, "factors.json"@),
        joined(out_dir@, "exposures.csv"@),
        joined(out_dir@, "attribution.csv"@),
        joined(out_dir@, "outliers.csv"@),
    ]);
    out
}

/// A path whose extension is `json`, whatever the case of its letters.
pub open spec fn is_json_path(p: Seq<char>) -> bool {
    match extension(p) {
        Some(e) => text::lower(e) == "json"@,
        None => false,
    }
}

fn json_path(p: &str) -> (r: bool)
    ensures
        r == is_json_path(p@),
{
    match path_extension(p) {
        Some(e) => same(to_lower(e.as_str()).as_str(), "json"),
        None => false,
    }
}

/// The paths of a report and of its JSON form: the given path is one of them,
/// by its extension, and the other has the extension replaced.
pub fn investigate_both_paths(out_path: &str) -> (r: (String, String))
    ensures
        (r.0@, r.1@) == (if is_json_path(out_path@) {
            (with_extension(out_path@, "md"@), out_path@)
        } else {
            (out_path@, with_extension(out_path@, "json"@))
        }),
{
    if json_path(out_path) {
        (path_with_extension(out_path, "md"), out_path.to_owned())
    } else {
        (out_path.to_owned(), path_with_extension(out_path, "json"))
    }
}

/// What the two inputs of an investigation are: both JSON artifacts or both datasets.
pub fn detect_investigate_input_kind(base: &str, new: &str) -> (r: Result<
    InvestigateInputKind,
    String,
>)
    ensures
        match r {
            Ok(k) => is_json_path(base@) == is_json_path(new@) && k == (if is_json_path(base@) {
                InvestigateInputKind::JsonArtifacts
            } else {
                InvestigateInputKind::CsvDatasets
            }),
            Err(e) => is_json_path(base@) != is_json_path(new@) && e@
                == "--base/--new must both be JSON artifacts or both be CSV datasets"@,
        },
{
    let base_json: bool = json_path(base);
    let new_json: bool = json_path(new);
    if base_json && new_json {
        Ok(InvestigateInputKind::JsonArtifacts)
    } else if !base_json && !new_json {
        Ok(InvestigateInputKind::CsvDatasets)
    } else {
        Err("--base/--new must both be JSON artifacts or both be CSV datasets".to_owned())
    }
}

// ---------------------------------------------------------------------------
// Default outputs
// ---------------------------------------------------------------------------

/// The name of an output: the input's stem behind the command's prefix, unless
/// it begins with it; `analysis` where the input has no name.
pub open spec fn output_stem(input: Option<Seq<char>>, prefix: Seq<char>) -> Seq<char> {
    let stem = match input {
        Some(p) => match file_stem(p) {
            Some(s) => if text::is_blank(s) {
                "analysis"@
            } else {
                s
            },
            None => "analysis"@,
        },
        None => "analysis"@,
    };
    if scan::starts_with(text::lower(stem), prefix) {
        stem
    } else {
        prefix + stem
    }
}

/// The path of an output in the directory of artifacts.
pub open spec fn output_path(input: Option<Seq<char>>, prefix: Seq<char>, ext: Seq<char>) -> Seq<
    char,
> {
    with_extension(joined("artifacts"@, output_stem(input, prefix)), ext)
}

fn make_output_path(input: Option<&str>, prefix: &str, ext: &str) -> (r: String)
    ensures
        r@ == output_path(
            match input {
                Some(p) => Some(p@),
                None => None,
            },
            prefix@,
            ext@,
        ),
{
    let stem = match input {
        Some(p) => match path_stem(p) {
            Some(s) => if blank(s.as_str()) {
                "analysis".to_owned()
            } else {
                s
            },
            None => "analysis".to_owned(),
        },
        None => "analysis".to_owned(),
    };
    let lowered = to_lower(stem.as_str());
    let name = if begins(lowered.as_str(), prefix) {
        stem
    } else {
        cat2(prefix, stem.as_str())
    };
    let base = join_path("artifacts", name.as_str());
    path_with_extension(base.as_str(), ext)
}

/// The extension of an analysis in a format.
pub open spec fn analysis_extension(format: OutputFormat) -> Seq<char> {
    match format {
        OutputFormat::Md => "md"@,
        OutputFormat::Both => "md"@,
        OutputFormat::Json => "json"@,
        OutputFormat::Html => "html"@,
    }
}

/// The extension of an investigation in a format.
pub open spec fn investigation_extension(format: InvestigateOutputFormat) -> Seq<char> {
    match format {
        InvestigateOutputFormat::Md => "md"@,
        InvestigateOutputFormat::Both => "md"@,
        InvestigateOutputFormat::Json => "json"@,
    }
}

fn extension_for(format: InvestigateOutputFormat) -> (r: &'static str)
    ensures
        r@ == investigation_extension(format),
{
    match format {
        InvestigateOutputFormat::Md => "md",
        InvestigateOutputFormat::Both => "md",
        InvestigateOutputFormat::Json => "json",
    }
}

/// Where an analysis is written by default.
pub fn default_analyze_out(args: &AnalyzeArgs) -> (r: String)
    ensures
        r@ == output_path(
            match args.input {
                Some(p) => Some(p@),
                None => None,
            },
            "analyze_"@,
            analysis_extension(args.output_format),
        ),
{
    let ext: &str = match args.output_format {
        OutputFormat::Md => "md",
        OutputFormat::Both => "md",
        OutputFormat::Json => "json",
        OutputFormat::Html => "html",
    };
    match &args.input {
        Some(p) => make_output_path(Some(p.as_str()), "analyze_", ext),
        None => make_output_path(None, "analyze_", ext),
    }
}

/// Where a driver investigation is written by default.
pub fn default_analyze_investigate_out(args: &InvestigateArgs) -> (r: String)
    ensures
        r@ == output_path(
            Some(args.input@),
            "investigate_"@,
            investigation_extension(args.output_format),
        ),
{
    make_output_path(Some(args.input.as_str()), "investigate_", extension_for(args.output_format))
}

/// Where a driver decomposition is written by default.
pub fn default_analyze_drivers_out(args: &AnalyzeDriversArgs) -> (r: String)
    ensures
        r@ == output_path(
            Some(args.input@),
            "drivers_"@,
            investigation_extension(args.output_format),
        ),
{
    make_output_path(Some(args.input.as_str()), "drivers_", extension_for(args.output_format))
}

/// Where a comparison of analyses is written by default.
pub fn default_analyze_compare_out(format: CompareOutputFormat) -> (r: String)
    ensures
        r@ == (match format {
            CompareOutputFormat::Md => "artifacts/analysis_compare.md"@,
            CompareOutputFormat::Both => "artifacts/analysis_compare.md"@,
            CompareOutputFormat::Html => "artifacts/analysis_compare.html"@,
            CompareOutputFormat::Json => "artifacts/analysis_compare.json"@,
        }),
{
    match format {
        CompareOutputFormat::Md => "artifacts/analysis_compare.md".to_owned(),
        CompareOutputFormat::Both => "artifacts/analysis_compare.md".to_owned(),
        CompareOutputFormat::Html => "artifacts/analysis_compare.html".to_owned(),
        CompareOutputFormat::Json => "artifacts/analysis_compare.json".to_owned(),
    }
}

/// Where an investigation is written by default.
pub fn default_investigate_workflow_out(args: &InvestigateWorkflowArgs) -> (r: String)
    ensures
        r@ == with_extension(
            "artifacts/investigate_workflow"@,
            investigation_extension(args.output_format),
        ),
{
    path_with_extension("artifacts/investigate_workflow", extension_for(args.output_format))
}

/// Where a suggested profile is written by default: beside its report.
pub fn default_suggest_profile_path(report_out: &str, format: SuggestProfileFormat) -> (r: String)
    ensures
        r@ == with_extension(report_out@, args::suggest_profile_format_extension_text(format)),
{
    path_with_extension(report_out, suggest_profile_format_extension(format))
}

proof fn lemma_component_starts_at(p: Seq<char>, at: int, e: int)
    requires
        0 <= at <= e <= p.len(),
        at > 0 ==> p[at - 1] == '/',
        forall|i: int| at <= i < e ==> #[trigger] p[i] != '/',
    ensures
        component_start(p, e) == at,
    decreases e,
{
    if e > at {
        assert(p[e - 1] != '/');
        lemma_component_starts_at(p, at, e - 1);
    }
}

proof fn lemma_last_dot(p: Seq<char>, a: int, k: int, e: int)
    requires
        0 <= a <= k < e <= p.len(),
        p[k] == '.',
        forall|i: int| k < i < e ==> #[trigger] p[i] != '.',
    ensures
        last_dot(p, a, e) == Some(k),
    decreases e - a,
{
    if k < e - 1 {
        assert(p[e - 1] != '.');
        lemma_last_dot(p, a, k, e - 1);
    }
}

/// A path in a directory, of a name, a point and an extension, has that name as
/// its stem and that extension; with another extension the rest stays.
pub proof fn law_paths_are_read_as_name_and_extension(
    dir: Seq<char>,
    stem: Seq<char>,
    ext: Seq<char>,
    other: Seq<char>,
)
    requires
        dir.len() > 0 ==> dir[dir.len() - 1] == '/',
        stem.len() > 0,
        ext.len() > 0 || stem != seq!['.'],
        forall|i: int| 0 <= i < stem.len() ==> #[trigger] stem[i] != '/',
        forall|i: int| 0 <= i < ext.len() ==> #[trigger] ext[i] != '/' && ext[i] != '.',
    ensures
        file_stem(dir + stem + seq!['.'] + ext) == Some(stem),
        extension(dir + stem + seq!['.'] + ext) == Some(ext),
        with_extension(dir + stem + seq!['.'] + ext, other) == dir + stem + seq!['.'] + other,
        is_json_path(dir + stem + seq!['.'] + ext) <==> text::lower(ext) == "json"@,
{
    let p = dir + stem + seq!['.'] + ext;
    let a = dir.len() as int;
    let k = a + stem.len();
    let e = p.len() as int;
    reveal_strlit(".");
    reveal_strlit("..");
    if ext.len() > 0 {
        assert(p[e - 1] == ext[ext.len() - 1]);
    } else {
        assert(p[e - 2] == stem[stem.len() - 1]);
    }
    assert(body_end(p, e) == e);
    assert forall|i: int| a <= i < e implies #[trigger] p[i] != '/' by {
        if i < k {
            assert(p[i] == stem[i - a]);
        } else if i > k {
            assert(p[i] == ext[i - k - 1]);
        }
    }
    if a > 0 {
        assert(p[a - 1] == dir[a - 1]);
    }
    lemma_component_starts_at(p, a, e);
    assert(p[k] == '.');
    assert forall|i: int| k < i < e implies #[trigger] p[i] != '.' by {
        assert(p[i] == ext[i - k - 1]);
    }
    lemma_last_dot(p, a, k, e);
    let name = p.subrange(a, e);
    assert(name[0] == stem[0]);
    if name.len() == 2 && stem[0] == '.' {
        assert(stem =~= seq!['.']);
    }
    assert(name != ".."@ && name != "."@);
    assert(name_span(p) == Some((a, e)));
    assert(stem_end(p, (a, e)) == k);
    assert(p.subrange(a, k) =~= stem);
    assert(p.subrange(k + 1, e) =~= ext);
    assert(p.take(k) =~= dir + stem);
    assert("."@ =~= seq!['.']);
}

proof fn lemma_no_dot(p: Seq<char>, a: int, e: int)
    requires
        0 <= a < e <= p.len(),
        forall|i: int| a < i < e ==> #[trigger] p[i] != '.',
    ensures
        last_dot(p, a, e) == (if p[a] == '.' {
            Some(a)
        } else {
            None
        }),
    decreases e - a,
{
    if e > a + 1 {
        assert(p[e - 1] != '.');
        lemma_no_dot(p, a, e - 1);
    } else {
        assert(last_dot(p, a, a) is None);
    }
}

/// A name without a point, but for one at its front, has no extension: it is all
/// stem, and an extension is put behind it.
pub proof fn law_names_without_a_point_have_no_extension(
    dir: Seq<char>,
    name: Seq<char>,
    ext: Seq<char>,
)
    requires
        dir.len() > 0 ==> dir[dir.len() - 1] == '/',
        name.len() > 0,
        name != seq!['.'],
        forall|i: int| 0 <= i < name.len() ==> #[trigger] name[i] != '/',
        forall|i: int| 0 < i < name.len() ==> #[trigger] name[i] != '.',
    ensures
        file_stem(dir + name) == Some(name),
        extension(dir + name) is None,
        with_extension(dir + name, ext) == dir + name + seq!['.'] + ext,
{
    let p = dir + name;
    let a = dir.len() as int;
    let e = p.len() as int;
    reveal_strlit(".");
    reveal_strlit("..");
    assert(p[e - 1] == name[name.len() - 1]);
    if name.len() == 1 && name[0] == '.' {
        assert(name =~= seq!['.']);
    }
    assert(body_end(p, e) == e);
    assert forall|i: int| a <= i < e implies #[trigger] p[i] != '/' by {
        assert(p[i] == name[i - a]);
    }
    if a > 0 {
        assert(p[a - 1] == dir[a - 1]);
    }
    lemma_component_starts_at(p, a, e);
    assert forall|i: int| a < i < e implies #[trigger] p[i] != '.' by {
        assert(p[i] == name[i - a]);
    }
    lemma_no_dot(p, a, e);
    assert(p.subrange(a, e) =~= name);
    if name == ".."@ {
        assert(name[1] == '.');
    }
    assert(name_span(p) == Some((a, e)));
    assert(stem_end(p, (a, e)) == e);
    assert(p.take(e) =~= p);
    assert("."@ =~= seq!['.']);
}

/// Joining keeps the directory and the name, with one slash between them.
pub proof fn law_joined_paths_have_one_slash(dir: Seq<char>, name: Seq<char>)
    ensures
        dir.len() == 0 ==> joined(dir, name) == name,
        dir.len() > 0 ==> joined(dir, name) == (if dir[dir.len() - 1] == '/' {
            dir.drop_last()
        } else {
            dir
        }) + seq!['/'] + name,
{
    reveal_strlit("/");
    if dir.len() > 0 && dir[dir.len() - 1] == '/' {
        assert(dir.drop_last() + seq!['/'] + name =~= dir + name);
    } else {
        assert("/"@ =~= seq!['/']);
    }
}

/// The name of what is written tells the command and the input: it begins with
/// the command's prefix and ends with the stem of the input, if it has one.
pub proof fn law_outputs_are_named_after_the_input(input: Seq<char>, prefix: Seq<char>)
    requires
        file_stem(input) is Some,
        !text::is_blank(file_stem(input)->0),
        text::lower(prefix) == prefix,
    ensures
        scan::starts_with(text::lower(output_stem(Some(input), prefix)), prefix),
        scan::ends_with(output_stem(Some(input), prefix), file_stem(input)->0),
{
    let stem = file_stem(input)->0;
    let out = output_stem(Some(input), prefix);
    if scan::starts_with(text::lower(stem), prefix) {
        assert(out.subrange(0, out.len() as int) =~= stem);
    } else {
        assert(text::lower(out).subrange(0, prefix.len() as int) =~= text::lower(prefix));
        assert(out.subrange(prefix.len() as int, out.len() as int) =~= stem);
    }
}

} // verus!
