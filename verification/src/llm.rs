//! Language model clients: the command that asks a model, and the reading of
//! what the command prints. Running the command is left to the caller.

use vstd::prelude::*;

use crate::json;
use crate::json::{parse_json, quote_json, Json};
use crate::list;
use crate::scan;
use crate::scan::{
    begins, ends, join_text, last_position_of, length, lines_of, position_of, replaced, slice,
};
use crate::text;
use crate::text::{
    blank, cat2, cat3, cat4, same, trimmed, trimmed_end, trimmed_start,
};

verus! {

/// Where a model runs.
#[derive(Clone, Copy, Debug, PartialEq, Eq, Structural)]
pub enum Backend {
    Local,
    Bedrock,
}

/// A program with its arguments.
#[derive(Debug)]
pub struct Invocation {
    pub program: String,
    pub arguments: Vec<String>,
}

/// What a program printed: as text, with a replacement for what is not UTF-8,
/// and whether there was nothing to replace.
#[derive(Debug)]
pub struct ProgramOutput {
    pub success: bool,
    pub stdout: String,
    pub stdout_is_utf8: bool,
    pub stderr: String,
}

/// The result of reading a program's output, in views.
pub open spec fn text_result(r: Result<String, String>) -> Result<Seq<char>, Seq<char>> {
    match r {
        Ok(s) => Ok(s@),
        Err(e) => Err(e@),
    }
}

/// A way to put a question to a model.
pub trait LlmClient {
    spec fn program_spec(&self) -> Seq<char>;

    spec fn arguments_spec(
        &self,
        system_prompt: Seq<char>,
        user_prompt: Seq<char>,
        region: Option<Seq<char>>,
    ) -> Seq<Seq<char>>;

    spec fn answer_spec(&self, system_prompt: Seq<char>, output: ProgramOutput) -> Result<
        Seq<char>,
        Seq<char>,
    >;

    /// The command that puts the question.
    fn invocation(&self, system_prompt: &str, user_prompt: &str, region: Option<&str>) -> (r:
        Invocation)
        ensures
            r.program@ == self.program_spec(),
            text::views(r.arguments@) == self.arguments_spec(
                system_prompt@,
                user_prompt@,
                match region {
                    Some(s) => Some(s@),
                    None => None,
                },
            ),
    ;

    /// The answer in what the command printed.
    fn answer(&self, system_prompt: &str, output: &ProgramOutput) -> (r: Result<String, String>)
        ensures
            text_result(r) == self.answer_spec(system_prompt@, *output),
    ;
}

/// A model file that the local runner loads.
#[derive(Debug)]
pub struct LocalLlamaCppClient {
    pub model: String,
}

/// A model that the Bedrock service hosts.
#[derive(Debug)]
pub struct BedrockClient {
    pub model: String,
}

/// A client of one of the two backends.
#[derive(Debug)]
pub enum Client {
    Local(LocalLlamaCppClient),
    Bedrock(BedrockClient),
}

/// The client of a backend for a model.
pub fn build_client(backend: Backend, model: String) -> (r: Client)
    ensures
        r == (match backend {
            Backend::Local => Client::Local(LocalLlamaCppClient { model }),
            Backend::Bedrock => Client::Bedrock(BedrockClient { model }),
        }),
{
    match backend {
        Backend::Local => Client::Local(LocalLlamaCppClient { model }),
        Backend::Bedrock => Client::Bedrock(BedrockClient { model }),
    }
}

// ---------------------------------------------------------------------------
// Local runner
// ---------------------------------------------------------------------------

pub open spec fn local_prompt(system_prompt: Seq<char>, user_prompt: Seq<char>) -> Seq<char> {
    "[SYSTEM]\n"@ + system_prompt + "\n\n[USER]\n"@ + user_prompt
}

/// The arguments of a local run.
pub open spec fn llama_arguments(program: Seq<char>, model: Seq<char>, prompt: Seq<char>) -> Seq<
    Seq<char>,
> {
    seq!["-m"@, model] + (if program == "llama-cli"@ {
        seq!["-st"@]
    } else {
        Seq::empty()
    }) + seq!["-p"@, prompt, "-n"@, "220"@, "--temp"@, "0.2"@]
}

/// The arguments with which a local runner completes a prompt.
pub fn run_llama(bin: &str, model: &str, prompt: &str) -> (r: Vec<String>)
    ensures
        text::views(r@) == llama_arguments(bin@, model@, prompt@),
{
    let mut out: Vec<String> = Vec::new();
    out.push("-m".to_owned());
    out.push(model.to_owned());
    if same(bin, "llama-cli") {
        out.push("-st".to_owned());
    }
    out.push("-p".to_owned());
    out.push(prompt.to_owned());
    out.push("-n".to_owned());
    out.push("220".to_owned());
    out.push("--temp".to_owned());
    out.push("0.2".to_owned());
    assert(text::views(out@) =~= llama_arguments(bin@, model@, prompt@));
    out
}

impl LlmClient for LocalLlamaCppClient {
    open spec fn program_spec(&self) -> Seq<char> {
        "llama-cli"@
    }

    open spec fn arguments_spec(
        &self,
        system_prompt: Seq<char>,
        user_prompt: Seq<char>,
        region: Option<Seq<char>>,
    ) -> Seq<Seq<char>> {
        llama_arguments(
            "llama-cli"@,
            self.model@,
            local_prompt(system_prompt, user_prompt),
        )
    }

    open spec fn answer_spec(&self, system_prompt: Seq<char>, output: ProgramOutput) -> Result<
        Seq<char>,
        Seq<char>,
    > {
        if output.success {
            Ok(cleaned_generation(output.stdout@, system_prompt))
        } else {
            Err("llama-cli returned non-zero status: "@ + output.stderr@)
        }
    }

    fn invocation(&self, system_prompt: &str, user_prompt: &str, region: Option<&str>) -> (r:
        Invocation) {
        let prompt = cat4("[SYSTEM]\n", system_prompt, "\n\n[USER]\n", user_prompt);
        let arguments = run_llama("llama-cli", self.model.as_str(), prompt.as_str());
        Invocation { program: "llama-cli".to_owned(), arguments }
    }

    fn answer(&self, system_prompt: &str, output: &ProgramOutput) -> (r: Result<String, String>) {
        if !output.success {
            return Err(
                cat2("llama-cli returned non-zero status: ", output.stderr.as_str()),
            );
        }
        Ok(clean_generation(output.stdout.as_str(), system_prompt))
    }
}

/// The part of a transcript that the model wrote: with line feeds alone, from
/// the last mark on and up to the end of input.
pub open spec fn generated_part(raw: Seq<char>) -> Seq<char> {
    let unix = scan::replace(raw, "\r\n"@, "\n"@);
    let marked = match scan::find_last(unix, "\nassistant"@) {
        Some(i) => unix.skip(i + "\nassistant"@.len()),
        None => unix,
    };
    match scan::find(marked, "\n> EOF by user"@) {
        Some(i) => marked.take(i),
        None => marked,
    }
}

/// Lines that are not part of the frame around an answer.
pub open spec fn is_content_line(line: Seq<char>) -> bool {
    let t = text::trim(line);
    !(t.len() == 0 || t == "user"@ || t == "assistant"@ || t == ">"@ || t == "[SYSTEM]"@ || t
        == "[USER]"@ || scan::starts_with(t, "<|im_start|>"@) || scan::starts_with(
        t,
        "<|im_end|>"@,
    ) || scan::starts_with(t, "Question:"@) || scan::starts_with(t, "Artifact context:"@)
        || scan::starts_with(t, "k="@) || scan::starts_with(t, "explained_variance="@)
        || scan::starts_with(t, "outliers="@) || scan::starts_with(t, "artifacts_dir="@))
}

fn content_line(line: &str) -> (r: bool)
    ensures
        r == is_content_line(line@),
{
    let s = trimmed(line);
    let t = s.as_str();
    !(t.is_empty() || same(t, "user") || same(t, "assistant") || same(t, ">") || same(
        t,
        "[SYSTEM]",
    ) || same(t, "[USER]") || begins(t, "<|im_start|>") || begins(t, "<|im_end|>") || begins(
        t,
        "Question:",
    ) || begins(t, "Artifact context:") || begins(t, "k=") || begins(t, "explained_variance=")
        || begins(t, "outliers=") || begins(t, "artifacts_dir="))
}

/// The content lines of the model's part; the whole transcript where there are none.
pub open spec fn content_of(raw: Seq<char>) -> Seq<char> {
    let content = text::trim(
        scan::join(
            list::keep(scan::lines(generated_part(raw)), |l: Seq<char>| is_content_line(l)),
            "\n"@,
        ),
    );
    if content.len() == 0 {
        text::trim(raw)
    } else {
        content
    }
}

/// A text without a first line that repeats the system prompt.
pub open spec fn without_prompt_line(s: Seq<char>, system_prompt: Seq<char>) -> Seq<char> {
    let t = text::trim_start(s);
    match scan::find(t, "\n"@) {
        Some(i) => if text::trim(t.take(i)) == system_prompt {
            text::trim_start(t.skip(i + 1))
        } else {
            t
        },
        None => if text::trim(t) == system_prompt {
            Seq::empty()
        } else {
            t
        },
    }
}

/// A text without the system prompt at its beginning.
pub open spec fn without_prompt(s: Seq<char>, system_prompt: Seq<char>) -> Seq<char> {
    let t = text::trim_start(s);
    if scan::starts_with(t, system_prompt) {
        text::trim_start(t.skip(system_prompt.len() as int))
    } else {
        t
    }
}

/// `s` without every `suffix` at its end.
pub open spec fn without_suffixes(s: Seq<char>, suffix: Seq<char>) -> Seq<char>
    decreases s.len(),
{
    if suffix.len() > 0 && scan::ends_with(s, suffix) {
        without_suffixes(s.take(s.len() - suffix.len()), suffix)
    } else {
        s
    }
}

/// The answer in what a local runner prints.
pub open spec fn cleaned_generation(raw: Seq<char>, system_prompt: Seq<char>) -> Seq<char> {
    let answer = without_prompt(
        without_prompt_line(content_of(raw), system_prompt),
        system_prompt,
    );
    if scan::ends_with(answer, "assistant"@) {
        text::trim_end(without_suffixes(answer, "assistant"@))
    } else {
        answer
    }
}

fn cut_generated_part(raw: &str) -> (r: String)
    ensures
        r@ == generated_part(raw@),
{
    proof {
        reveal_strlit("\r\n");
    }
    let unix = replaced(raw, "\r\n", "\n");
    let n: usize = length(unix.as_str());
    let m: usize = length("\nassistant");
    let marked = match last_position_of(unix.as_str(), "\nassistant") {
        Some(i) => {
            let tail = slice(unix.as_str(), i + m, n);
            assert(tail@ =~= unix@.skip(i + "\nassistant"@.len()));
            tail
        },
        None => unix,
    };
    match position_of(marked.as_str(), "\n> EOF by user") {
        Some(i) => {
            let head = slice(marked.as_str(), 0, i);
            assert(head@ =~= marked@.take(i as int));
            head
        },
        None => marked,
    }
}

#[verifier::loop_isolation(false)]
fn find_content(raw: &str) -> (r: String)
    ensures
        r@ == content_of(raw@),
{
    let part = cut_generated_part(raw);
    let lines = lines_of(part.as_str());
    let ghost all = scan::lines(generated_part(raw@));
    let ghost p = |l: Seq<char>| is_content_line(l);
    let mut kept: Vec<String> = Vec::new();
    let mut i: usize = 0;
    assert(text::views(kept@) =~= list::keep(all.take(0), p));
    while i < lines.len()
        invariant
            i <= lines.len(),
            all == text::views(lines@),
            text::views(kept@) == list::keep(all.take(i as int), p),
        decreases lines.len() - i,
    {
        assert(all[i as int] == lines@[i as int]@);
        assert(all.take(i + 1).drop_last() =~= all.take(i as int));
        let ghost before = text::views(kept@);
        if content_line(lines[i].as_str()) {
            kept.push(lines[i].clone());
            assert(text::views(kept@) =~= before.push(all[i as int]));
        }
        i += 1;
    }
    assert(all.take(all.len() as int) =~= all);
    let content = trimmed(join_text(&kept, "\n").as_str());
    if content.as_str().is_empty() {
        trimmed(raw)
    } else {
        content
    }
}

fn drop_prompt_line(s: &str, system_prompt: &str) -> (r: String)
    ensures
        r@ == without_prompt_line(s@, system_prompt@),
{
    proof {
        reveal_strlit("\n");
    }
    let t = trimmed_start(s);
    match position_of(t.as_str(), "\n") {
        Some(i) => {
            let n: usize = length(t.as_str());
            let head = slice(t.as_str(), 0, i);
            assert(head@ =~= t@.take(i as int));
            if same(trimmed(head.as_str()).as_str(), system_prompt) {
                let rest = slice(t.as_str(), i + 1, n);
                assert(rest@ =~= t@.skip(i + 1));
                trimmed_start(rest.as_str())
            } else {
                t
            }
        },
        None => {
            if same(trimmed(t.as_str()).as_str(), system_prompt) {
                String::new()
            } else {
                t
            }
        },
    }
}

fn drop_prompt(s: &str, system_prompt: &str) -> (r: String)
    ensures
        r@ == without_prompt(s@, system_prompt@),
{
    let t = trimmed_start(s);
    if begins(t.as_str(), system_prompt) {
        let n: usize = length(t.as_str());
        let m: usize = length(system_prompt);
        let rest = slice(t.as_str(), m, n);
        assert(rest@ =~= t@.skip(m as int));
        trimmed_start(rest.as_str())
    } else {
        t
    }
}

fn drop_suffixes(s: &str, suffix: &str) -> (r: String)
    ensures
        r@ == without_suffixes(s@, suffix@),
{
    let m: usize = length(suffix);
    let mut out = s.to_owned();
    if m == 0 {
        return out;
    }
    while ends(out.as_str(), suffix)
        invariant
            m == suffix@.len(),
            m > 0,
            without_suffixes(out@, suffix@) == without_suffixes(s@, suffix@),
        decreases out@.len(),
    {
        let n: usize = length(out.as_str());
        let shorter = slice(out.as_str(), 0, n - m);
        assert(shorter@ =~= out@.take(n - m));
        out = shorter;
    }
    out
}

/// Finds the answer in what a local runner prints: without the frame of the
/// chat, the log lines and a repeated system prompt.
pub fn clean_generation(raw: &str, system_prompt: &str) -> (r: String)
    ensures
        r@ == cleaned_generation(raw@, system_prompt@),
{
    let content = find_content(raw);
    let a = drop_prompt_line(content.as_str(), system_prompt);
    let out = drop_prompt(a.as_str(), system_prompt);
    if ends(out.as_str(), "assistant") {
        trimmed_end(drop_suffixes(out.as_str(), "assistant").as_str())
    } else {
        out
    }
}

// ---------------------------------------------------------------------------
// Bedrock
// ---------------------------------------------------------------------------

/// The messages of a conversation with one prompt, as a JSON document.
pub open spec fn bedrock_messages(system_prompt: Seq<char>, user_prompt: Seq<char>) -> Seq<char> {
    "[{\"content\":[{\"text\":"@ + json::json_quoted(
        "System:\n"@ + system_prompt + "\n\nUser:\n"@ + user_prompt,
    ) + "}],\"role\":\"user\"}]"@
}

/// The member `name` of an object, or the element `index` of a list.
pub open spec fn child(v: Json, name: Seq<char>, index: int) -> Option<Json> {
    match v {
        Json::Object(ms) => json::member(ms@, name, 0),
        Json::List(xs) => if 0 <= index < xs@.len() {
            Some(xs@[index])
        } else {
            None
        },
        _ => None,
    }
}

/// The text in a response: `output.message.content[0].text`.
pub open spec fn response_text(v: Json) -> Option<Seq<char>> {
    match v.get_spec("output"@) {
        None => None,
        Some(a) => match a.get_spec("message"@) {
            None => None,
            Some(b) => match b.get_spec("content"@) {
                None => None,
                Some(c) => match child(c, "0"@, 0) {
                    None => None,
                    Some(d) => match d.get_spec("text"@) {
                        None => None,
                        Some(e) => e.text_spec(),
                    },
                },
            },
        },
    }
}

fn first_child(v: &Json) -> (r: Option<&Json>)
    ensures
        match r {
            Some(c) => child(*v, "0"@, 0) == Some(*c),
            None => child(*v, "0"@, 0) is None,
        },
{
    match v {
        Json::Object(_) => v.get("0"),
        Json::List(xs) => {
            if xs.len() > 0 {
                Some(&xs[0])
            } else {
                None
            }
        },
        _ => None,
    }
}

fn find_response_text(v: &Json) -> (r: Option<&str>)
    ensures
        match r {
            Some(s) => response_text(*v) == Some(s@),
            None => response_text(*v) is None,
        },
{
    match v.get("output") {
        None => None,
        Some(a) => match a.get("message") {
            None => None,
            Some(b) => match b.get("content") {
                None => None,
                Some(c) => match first_child(c) {
                    None => None,
                    Some(d) => match d.get("text") {
                        None => None,
                        Some(e) => e.as_text(),
                    },
                },
            },
        },
    }
}

/// The answer in a parsed response.
pub open spec fn bedrock_reading(parsed: Result<Json, Seq<char>>) -> Result<Seq<char>, Seq<char>> {
    match parsed {
        Err(_) => Err("failed to parse bedrock JSON response"@),
        Ok(v) => match response_text(v) {
            Some(t) => Ok(text::trim(t)),
            None => Err("bedrock response missing output.message.content[0].text"@),
        },
    }
}

/// The answer in a response, or why there is none.
pub fn read_bedrock_response(parsed: &Result<Json, String>) -> (r: Result<String, String>)
    ensures
        text_result(r) == bedrock_reading(
            match *parsed {
                Ok(v) => Ok::<Json, Seq<char>>(v),
                Err(e) => Err(e@),
            },
        ),
{
    match parsed {
        Err(_) => Err("failed to parse bedrock JSON response".to_owned()),
        Ok(v) => match find_response_text(v) {
            Some(t) => Ok(trimmed(t)),
            None => Err("bedrock response missing output.message.content[0].text".to_owned()),
        },
    }
}

impl LlmClient for BedrockClient {
    open spec fn program_spec(&self) -> Seq<char> {
        "aws"@
    }

    open spec fn arguments_spec(
        &self,
        system_prompt: Seq<char>,
        user_prompt: Seq<char>,
        region: Option<Seq<char>>,
    ) -> Seq<Seq<char>> {
        let fixed = seq![
            "bedrock-runtime"@,
            "converse"@,
            "--model-id"@,
            self.model@,
            "--messages"@,
            bedrock_messages(system_prompt, user_prompt),
            "--inference-config"@,
            "{\"maxTokens\":700,\"temperature\":0.2}"@,
            "--output"@,
            "json"@,
        ];
        match region {
            Some(r) => if text::is_blank(r) {
                fixed
            } else {
                fixed + seq!["--region"@, r]
            },
            None => fixed,
        }
    }

    open spec fn answer_spec(&self, system_prompt: Seq<char>, output: ProgramOutput) -> Result<
        Seq<char>,
        Seq<char>,
    > {
        if !output.success {
            Err("bedrock converse failed: "@ + output.stderr@)
        } else if !output.stdout_is_utf8 {
            Err("failed to parse bedrock JSON response"@)
        } else {
            bedrock_reading(json::json_of(output.stdout@))
        }
    }

    fn invocation(&self, system_prompt: &str, user_prompt: &str, region: Option<&str>) -> (r:
        Invocation) {
        let prompt = cat4("System:\n", system_prompt, "\n\nUser:\n", user_prompt);
        let quoted = quote_json(prompt.as_str());
        let messages = cat3(
            "[{\"content\":[{\"text\":",
            quoted.as_str(),
            "}],\"role\":\"user\"}]",
        );
        let mut arguments: Vec<String> = Vec::new();
        arguments.push("bedrock-runtime".to_owned());
        arguments.push("converse".to_owned());
        arguments.push("--model-id".to_owned());
        arguments.push(self.model.clone());
        arguments.push("--messages".to_owned());
        arguments.push(messages);
        arguments.push("--inference-config".to_owned());
        arguments.push("{\"maxTokens\":700,\"temperature\":0.2}".to_owned());
        arguments.push("--output".to_owned());
        arguments.push("json".to_owned());
        match region {
            Some(s) => {
                if !blank(s) {
                    arguments.push("--region".to_owned());
                    arguments.push(s.to_owned());
                }
            },
            None => {},
        }
        assert(text::views(arguments@) =~= self.arguments_spec(
            system_prompt@,
            user_prompt@,
            match region {
                Some(s) => Some(s@),
                None => None,
            },
        ));
        Invocation { program: "aws".to_owned(), arguments }
    }

    fn answer(&self, system_prompt: &str, output: &ProgramOutput) -> (r: Result<String, String>) {
        if !output.success {
            return Err(cat2("bedrock converse failed: ", output.stderr.as_str()));
        }
        if !output.stdout_is_utf8 {
            return Err("failed to parse bedrock JSON response".to_owned());
        }
        let parsed = parse_json(output.stdout.as_str());
        read_bedrock_response(&parsed)
    }
}

impl LlmClient for Client {
    open spec fn program_spec(&self) -> Seq<char> {
        match self {
            Client::Local(c) => c.program_spec(),
            Client::Bedrock(c) => c.program_spec(),
        }
    }

    open spec fn arguments_spec(
        &self,
        system_prompt: Seq<char>,
        user_prompt: Seq<char>,
        region: Option<Seq<char>>,
    ) -> Seq<Seq<char>> {
        match self {
            Client::Local(c) => c.arguments_spec(system_prompt, user_prompt, region),
            Client::Bedrock(c) => c.arguments_spec(system_prompt, user_prompt, region),
        }
    }

    open spec fn answer_spec(&self, system_prompt: Seq<char>, output: ProgramOutput) -> Result<
        Seq<char>,
        Seq<char>,
    > {
        match self {
            Client::Local(c) => c.answer_spec(system_prompt, output),
            Client::Bedrock(c) => c.answer_spec(system_prompt, output),
        }
    }

    fn invocation(&self, system_prompt: &str, user_prompt: &str, region: Option<&str>) -> (r:
        Invocation) {
        match self {
            Client::Local(c) => c.invocation(system_prompt, user_prompt, region),
            Client::Bedrock(c) => c.invocation(system_prompt, user_prompt, region),
        }
    }

    fn answer(&self, system_prompt: &str, output: &ProgramOutput) -> (r: Result<String, String>) {
        match self {
            Client::Local(c) => c.answer(system_prompt, output),
            Client::Bedrock(c) => c.answer(system_prompt, output),
        }
    }
}

/// Where a suffix is cut off, it is cut off as often as it stands there: the rest
/// does not end with it, and begins what was there.
pub proof fn law_suffixes_are_cut_off_wholly(s: Seq<char>, suffix: Seq<char>)
    requires
        suffix.len() > 0,
    ensures
        !scan::ends_with(without_suffixes(s, suffix), suffix),
        without_suffixes(s, suffix).is_prefix_of(s),
        !scan::ends_with(s, suffix) ==> without_suffixes(s, suffix) == s,
    decreases s.len(),
{
    if scan::ends_with(s, suffix) {
        let t = s.take(s.len() - suffix.len());
        law_suffixes_are_cut_off_wholly(t, suffix);
        let r = without_suffixes(s, suffix);
        assert(r.is_prefix_of(t));
        assert(r =~= s.subrange(0, r.len() as int));
    }
}

/// An echo of the prompt at the front of an answer is cut off, and an answer
/// that does not begin with it stays, but for white space before it.
pub proof fn law_echoed_prompts_are_cut_off(prompt: Seq<char>, answer: Seq<char>)
    requires
        prompt.len() > 0,
        !text::is_white(prompt[0]),
        answer.len() > 0,
        !text::is_white(answer[0]),
    ensures
        without_prompt(prompt + answer, prompt) == answer,
        !scan::starts_with(answer, prompt) ==> without_prompt(answer, prompt) == answer,
{
    let s = prompt + answer;
    assert(s[0] == prompt[0]);
    assert(text::trim_start(s) == s);
    assert(s.subrange(0, prompt.len() as int) =~= prompt);
    assert(s.skip(prompt.len() as int) =~= answer);
    assert(text::trim_start(answer) == answer);
}

/// The hosted model is asked in the region that is named, if one is; the rest of
/// the command is the same.
pub proof fn law_regions_are_named_last(
    client: BedrockClient,
    system_prompt: Seq<char>,
    user_prompt: Seq<char>,
    region: Seq<char>,
)
    ensures
        ({
            let plain = client.arguments_spec(system_prompt, user_prompt, None);
            let asked = client.arguments_spec(system_prompt, user_prompt, Some(region));
            &&& plain.contains(client.model@)
            &&& text::is_blank(region) ==> asked == plain
            &&& !text::is_blank(region) ==> asked == plain + seq!["--region"@, region]
        }),
{
    let plain = client.arguments_spec(system_prompt, user_prompt, None);
    assert(plain[3] == client.model@);
}

/// The local runner is given the model and a prompt that holds what the system
/// and the user say, in that order.
pub proof fn law_local_prompts_hold_both_parts(
    client: LocalLlamaCppClient,
    system_prompt: Seq<char>,
    user_prompt: Seq<char>,
    region: Option<Seq<char>>,
)
    ensures
        ({
            let asked = client.arguments_spec(system_prompt, user_prompt, region);
            &&& asked.len() > 4
            &&& asked[1] == client.model@
            &&& asked.contains("[SYSTEM]\n"@ + system_prompt + "\n\n[USER]\n"@ + user_prompt)
        }),
{
    let asked = client.arguments_spec(system_prompt, user_prompt, region);
    assert(asked[4] == local_prompt(system_prompt, user_prompt));
}

} // verus!
