//! Messages cut down to one short line.

use vstd::prelude::*;

use crate::list;
use crate::planner;
use crate::scan;
use crate::scan::{begins, mentions, lines_of, replaced_char};
use crate::text;
use crate::text::{cat2, to_lower, trimmed};

verus! {

/// Where a text that is too long is cut: three bytes before its limit.
pub open spec fn cut_point(max_len: usize) -> int {
    if max_len >= 3 {
        max_len - 3
    } else {
        0
    }
}

/// The text is short enough, or can be cut without splitting a character.
pub open spec fn can_cut(s: Seq<char>, max_len: usize) -> bool {
    planner::byte_len(s) <= max_len || vstd::utf8::is_char_boundary(
        vstd::utf8::encode_utf8(s),
        cut_point(max_len),
    )
}

/// A text of at most `max_len` bytes stays; of a longer one the first
/// `max_len - 3` bytes stay, followed by three points.
pub open spec fn cut(s: Seq<char>, max_len: usize) -> Seq<char> {
    if planner::byte_len(s) <= max_len {
        s
    } else {
        vstd::utf8::decode_utf8(vstd::utf8::encode_utf8(s).take(cut_point(max_len))) + "..."@
    }
}

fn cut_text(s: String, max_len: usize) -> (r: String)
    requires
        can_cut(s@, max_len),
    ensures
        r@ == cut(s@, max_len),
{
    if s.as_str().len() <= max_len {
        return s;
    }
    let mid: usize = if max_len >= 3 {
        max_len - 3
    } else {
        0
    };
    let parts = s.as_str().split_at(mid);
    proof {
        let bytes = vstd::utf8::encode_utf8(s@);
        assert(vstd::utf8::encode_utf8(parts.0@) =~= bytes.take(mid as int));
        vstd::utf8::encode_utf8_decode_utf8(parts.0@);
    }
    cat2(parts.0, "...")
}

/// The trimmed lines of a message that are not blank.
pub open spec fn message_lines(msg: Seq<char>) -> Seq<Seq<char>> {
    list::keep(
        scan::lines(msg).map_values(|l: Seq<char>| text::trim(l)),
        |l: Seq<char>| l.len() > 0,
    )
}

/// Lines that name a failure.
pub open spec fn names_failure() -> spec_fn(Seq<char>) -> bool {
    |l: Seq<char>|
        scan::contains(text::lower(l), "error"@) || scan::contains(text::lower(l), "failed"@)
            || scan::contains(text::lower(l), "invalid"@) || scan::contains(
            text::lower(l),
            "unknown"@,
        )
}

/// Lines that are not part of a model runner's log.
pub open spec fn not_runner_log() -> spec_fn(Seq<char>) -> bool {
    |l: Seq<char>|
        !(scan::starts_with(l, "load_backend:"@) || scan::starts_with(l, "print_info:"@)
            || scan::starts_with(l, "llama_model_loader:"@) || scan::starts_with(
            l,
            "llama_context:"@,
        ) || scan::starts_with(l, "sched_reserve:"@) || scan::starts_with(l, "system_info:"@)
            || scan::starts_with(l, "sampler "@) || scan::starts_with(l, "generate:"@))
}

/// The line that says most: the first that names a failure, else the first that
/// is no runner log, else the last one.
pub open spec fn telling_line(msg: Seq<char>) -> Seq<char> {
    let lines = message_lines(msg);
    match list::first(lines, names_failure()) {
        Some(l) => l,
        None => match list::first(lines, not_runner_log()) {
            Some(l) => l,
            None => if lines.len() > 0 {
                lines.last()
            } else {
                "unknown error"@
            },
        },
    }
}

fn line_names_failure(l: &str) -> (r: bool)
    ensures
        r == names_failure()(l@),
{
    let lower = to_lower(l);
    mentions(lower.as_str(), "error") || mentions(lower.as_str(), "failed") || mentions(lower.as_str(), "invalid")
        || mentions(lower.as_str(), "unknown")
}

fn line_not_runner_log(l: &str) -> (r: bool)
    ensures
        r == not_runner_log()(l@),
{
    !(begins(l, "load_backend:") || begins(l, "print_info:") || begins(l, "llama_model_loader:")
        || begins(l, "llama_context:") || begins(l, "sched_reserve:") || begins(l, "system_info:")
        || begins(l, "sampler ") || begins(l, "generate:"))
}

#[verifier::loop_isolation(false)]
fn find_telling_line(msg: &str) -> (r: String)
    ensures
        r@ == telling_line(msg@),
{
    let all = lines_of(msg);
    let ghost trim_all = scan::lines(msg@).map_values(|l: Seq<char>| text::trim(l));
    let ghost filled = |l: Seq<char>| l.len() > 0;
    let mut lines: Vec<String> = Vec::new();
    let mut i: usize = 0;
    assert(text::views(lines@) =~= list::keep(trim_all.take(0), filled));
    while i < all.len()
        invariant
            i <= all.len(),
            text::views(all@) == scan::lines(msg@),
            text::views(lines@) == list::keep(trim_all.take(i as int), filled),
        decreases all.len() - i,
    {
        let t = trimmed(all[i].as_str());
        assert(text::views(all@)[i as int] == all@[i as int]@);
        assert(trim_all.take(i + 1).drop_last() =~= trim_all.take(i as int));
        let ghost before = text::views(lines@);
        if !t.as_str().is_empty() {
            lines.push(t);
            assert(text::views(lines@) =~= before.push(t@));
        }
        i += 1;
    }
    assert(trim_all.take(trim_all.len() as int) =~= trim_all);
    let ghost found = text::views(lines@);
    assert(found == message_lines(msg@));
    let mut k: usize = 0;
    while k < lines.len()
        invariant
            k <= lines.len(),
            found == text::views(lines@),
            list::first_from(found, names_failure(), k as int) == list::first_from(
                found,
                names_failure(),
                0,
            ),
        decreases lines.len() - k,
    {
        assert(found[k as int] == lines@[k as int]@);
        if line_names_failure(lines[k].as_str()) {
            return lines[k].clone();
        }
        k += 1;
    }
    let mut j: usize = 0;
    while j < lines.len()
        invariant
            j <= lines.len(),
            found == text::views(lines@),
            list::first_from(found, not_runner_log(), j as int) == list::first_from(
                found,
                not_runner_log(),
                0,
            ),
        decreases lines.len() - j,
    {
        assert(found[j as int] == lines@[j as int]@);
        if line_not_runner_log(lines[j].as_str()) {
            return lines[j].clone();
        }
        j += 1;
    }
    if lines.len() > 0 {
        assert(found.last() == lines@.last()@);
        lines[lines.len() - 1].clone()
    } else {
        "unknown error".to_owned()
    }
}

/// Whether `compact_error_message` can cut the message without splitting a character.
pub fn can_compact(msg: &str) -> (r: bool)
    ensures
        r == can_cut(telling_line(msg@), 180),
{
    let line = find_telling_line(msg);
    line.as_str().len() <= 180 || line.as_str().is_char_boundary(177)
}

/// The line of a message that says most, cut to 180 bytes.
pub fn compact_error_message(msg: &str) -> (r: String)
    requires
        can_cut(telling_line(msg@), 180),
    ensures
        r@ == cut(telling_line(msg@), 180),
{
    let line = find_telling_line(msg);
    cut_text(line, 180)
}

/// A text on one line: carriage returns become spaces, line feeds are spelled out.
pub open spec fn spelled_out(s: Seq<char>) -> Seq<char> {
    scan::replace_char(scan::replace_char(s, '\r', " "@), '\n', "\\n"@)
}

/// Whether `compact_trace_preview` can cut the text without splitting a character.
pub fn can_preview(source: &str, max_len: usize) -> (r: bool)
    ensures
        r == can_cut(spelled_out(source@), max_len),
{
    let flat = replaced_char(replaced_char(source, '\r', " ").as_str(), '\n', "\\n");
    let mid: usize = if max_len >= 3 {
        max_len - 3
    } else {
        0
    };
    flat.as_str().len() <= max_len || flat.as_str().is_char_boundary(mid)
}

/// A text on one line, cut to `max_len` bytes.
pub fn compact_trace_preview(text: &str, max_len: usize) -> (r: String)
    requires
        can_cut(spelled_out(text@), max_len),
    ensures
        r@ == cut(spelled_out(text@), max_len),
{
    let flat = replaced_char(replaced_char(text, '\r', " ").as_str(), '\n', "\\n");
    cut_text(flat, max_len)
}

/// A message that is cut ends in three points behind the bytes that it keeps.
pub proof fn law_cut_length(s: Seq<char>, max_len: usize)
    requires
        can_cut(s, max_len),
        vstd::utf8::encode_utf8(s).len() <= usize::MAX,
    ensures
        planner::byte_len(s) > max_len ==> vstd::utf8::encode_utf8(
            vstd::utf8::decode_utf8(vstd::utf8::encode_utf8(s).take(cut_point(max_len))),
        ).len() == cut_point(max_len),
{
    let bytes = vstd::utf8::encode_utf8(s);
    if planner::byte_len(s) > max_len {
        vstd::utf8::encode_utf8_valid_utf8(s);
        vstd::utf8::valid_utf8_split(bytes, cut_point(max_len));
        assert(bytes.take(cut_point(max_len)) =~= bytes.subrange(0, cut_point(max_len)));
        vstd::utf8::decode_utf8_encode_utf8(bytes.take(cut_point(max_len)));
    }
}

/// The line that is told of a message is one of its filled lines. It is the first
/// that names a failure, if one does, and else the first that is not of the
/// runner's own log; where all lines are, it is the last.
pub proof fn law_failures_are_told_first(msg: Seq<char>)
    ensures
        ({
            let lines = message_lines(msg);
            let told = telling_line(msg);
            let fails = |l: Seq<char>|
                scan::contains(text::lower(l), "error"@) || scan::contains(
                    text::lower(l),
                    "failed"@,
                ) || scan::contains(text::lower(l), "invalid"@) || scan::contains(
                    text::lower(l),
                    "unknown"@,
                );
            &&& lines.len() > 0 ==> lines.contains(told) && told.len() > 0
            &&& lines.len() == 0 ==> told == "unknown error"@
            &&& forall|i: int|
                0 <= i < lines.len() && fails(#[trigger] lines[i]) && (forall|j: int|
                    0 <= j < i ==> !fails(#[trigger] lines[j])) ==> told == lines[i]
            &&& forall|i: int|
                0 <= i < lines.len() && !fails(told) && !not_runner_log()(told)
                    ==> !not_runner_log()(#[trigger] lines[i]) && told == lines[lines.len() - 1]
        }),
{
    let lines = message_lines(msg);
    let trimmed = scan::lines(msg).map_values(|l: Seq<char>| text::trim(l));
    let filled = |l: Seq<char>| l.len() > 0;
    list::lemma_keep(trimmed, filled);
    list::lemma_first_from(lines, names_failure(), 0);
    list::lemma_first_from(lines, not_runner_log(), 0);
    assert forall|i: int| 0 <= i < lines.len() implies (#[trigger] lines[i]).len() > 0 by {
        assert(filled(lines[i]));
    }
    if let Some(k) = list::first_from(lines, names_failure(), 0) {
        assert(names_failure()(lines[k]));
        assert forall|i: int|
            0 <= i < lines.len() && names_failure()(#[trigger] lines[i]) && (forall|j: int|
                0 <= j < i ==> !names_failure()(#[trigger] lines[j])) implies telling_line(msg)
            == lines[i] by {
            if i < k {
                assert(!names_failure()(lines[i]));
            }
            if k < i {
                assert(!names_failure()(lines[k]));
            }
        }
    } else {
        assert forall|i: int| 0 <= i < lines.len() implies !names_failure()(
            #[trigger] lines[i],
        ) by {}
        if let Some(k) = list::first_from(lines, not_runner_log(), 0) {
            assert(not_runner_log()(lines[k]));
        } else {
            assert forall|i: int| 0 <= i < lines.len() implies !not_runner_log()(
                #[trigger] lines[i],
            ) by {}
        }
    }
}

} // verus!
