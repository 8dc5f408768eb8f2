//! JSON documents as the logic reads them, and JSON objects inside other text.

use vstd::prelude::*;

use crate::num::Num;
use crate::text::{chars_of, same, text_of};

verus! {

/// A JSON value. A number has its value as a whole number, where it is one
/// that is not negative, and its binary64 value. The members of an object
/// stand in ascending order of their names, each name once.
#[derive(Debug)]
pub enum Json {
    Null,
    Bool(bool),
    Number { whole: Option<u64>, value: Option<Num> },
    Text(String),
    List(Vec<Json>),
    Object(Vec<(String, Json)>),
}

/// `serde_json::Value`, carried from the parser to its conversion.
#[verifier::external_type_specification]
#[verifier::external_body]
pub struct ExValue(serde_json::Value);

/// What `serde_json::from_str` makes of a text: the value, or the words of its error.
pub uninterp spec fn json_of(source: Seq<char>) -> Result<Json, Seq<char>>;

/// Copies a parsed value of `serde_json` part by part: each kind of value
/// becomes the variant of the same kind, numbers through `Number::as_u64` and
/// `Number::as_f64`. Nothing is claimed of the result here; what the parser
/// and this copy give together has the name `json_of`.
#[verifier::external_body]
fn json_from_value(v: serde_json::Value) -> (r: Json) {
    match v {
        serde_json::Value::Null => Json::Null,
        serde_json::Value::Bool(b) => Json::Bool(b),
        serde_json::Value::Number(n) => Json::Number {
            whole: n.as_u64(),
            value: n.as_f64().map(|x| Num { bits: x.to_bits() }),
        },
        serde_json::Value::String(s) => Json::Text(s),
        serde_json::Value::Array(xs) => Json::List(xs.into_iter().map(json_from_value).collect()),
        serde_json::Value::Object(m) => Json::Object(
            m.into_iter().map(|(k, x)| (k, json_from_value(x))).collect(),
        ),
    }
}

/// `serde_json::from_str` into a `serde_json::Value`, copied: the value that
/// the text denotes, or the error's words, each a function of the text alone.
#[verifier::external_body]
pub(crate) fn parse_json(source: &str) -> (r: Result<Json, String>)
    ensures
        match r {
            Ok(v) => json_of(source@) == Ok::<Json, Seq<char>>(v),
            Err(e) => json_of(source@) == Err::<Json, Seq<char>>(e@),
        },
{
    match serde_json::from_str::<serde_json::Value>(source) {
        Ok(v) => Ok(json_from_value(v)),
        Err(e) => Err(e.to_string()),
    }
}

/// A hexadecimal digit, in lower case.
pub open spec fn hex_digit(n: int) -> char {
    if n < 10 {
        (0x30 + n) as char
    } else {
        (0x57 + n) as char
    }
}

/// A character inside a JSON string: quotation marks, backslashes and control
/// characters are escaped, all others stand as they are.
pub open spec fn escaped_char(c: char) -> Seq<char> {
    if c == '"' || c == '\\' {
        seq!['\\', c]
    } else if c == '\u{8}' {
        seq!['\\', 'b']
    } else if c == '\t' {
        seq!['\\', 't']
    } else if c == '\n' {
        seq!['\\', 'n']
    } else if c == '\u{c}' {
        seq!['\\', 'f']
    } else if c == '\r' {
        seq!['\\', 'r']
    } else if (c as u32) < 32 {
        seq!['\\', 'u', '0', '0', hex_digit(c as int / 16), hex_digit(c as int % 16)]
    } else {
        seq![c]
    }
}

/// Characters inside a JSON string.
pub open spec fn escaped(s: Seq<char>) -> Seq<char>
    decreases s.len(),
{
    if s.len() == 0 {
        Seq::empty()
    } else {
        escaped(s.drop_last()) + escaped_char(s.last())
    }
}

/// A text as a JSON string.
pub open spec fn json_quoted(s: Seq<char>) -> Seq<char> {
    seq!['"'] + escaped(s) + seq!['"']
}

/// `serde_json::Value::to_string` of a string value: its JSON literal, between
/// quotation marks and with escapes for what a JSON string cannot hold.
#[verifier::external_body]
pub(crate) fn quote_json(s: &str) -> (r: String)
    ensures
        r@ == json_quoted(s@),
{
    serde_json::Value::String(s.to_owned()).to_string()
}

// ---------------------------------------------------------------------------
// Reading values
// ---------------------------------------------------------------------------

/// The member of an object with the given name.
pub open spec fn member(members: Seq<(String, Json)>, name: Seq<char>, i: int) -> Option<Json>
    decreases members.len() - i,
{
    if i < 0 || i >= members.len() {
        None
    } else if members[i].0@ == name {
        Some(members[i].1)
    } else {
        member(members, name, i + 1)
    }
}

impl Json {
    /// The member with the given name, where the value is an object that has it.
    pub open spec fn get_spec(self, name: Seq<char>) -> Option<Json> {
        match self {
            Json::Object(ms) => member(ms@, name, 0),
            _ => None,
        }
    }

    /// The text of a string.
    pub open spec fn text_spec(self) -> Option<Seq<char>> {
        match self {
            Json::Text(s) => Some(s@),
            _ => None,
        }
    }

    /// The elements of a list.
    pub open spec fn list_spec(self) -> Option<Seq<Json>> {
        match self {
            Json::List(xs) => Some(xs@),
            _ => None,
        }
    }

    /// The value of a whole number that is not negative.
    pub open spec fn whole_spec(self) -> Option<u64> {
        match self {
            Json::Number { whole, .. } => whole,
            _ => None,
        }
    }

    /// The value of a number.
    pub open spec fn number_spec(self) -> Option<Num> {
        match self {
            Json::Number { value, .. } => value,
            _ => None,
        }
    }

    /// The member with the given name.
    pub fn get(&self, name: &str) -> (r: Option<&Json>)
        ensures
            match r {
                Some(v) => self.get_spec(name@) == Some(*v),
                None => self.get_spec(name@) is None,
            },
    {
        match self {
            Json::Object(ms) => {
                let mut i: usize = 0;
                while i < ms.len()
                    invariant
                        i <= ms.len(),
                        member(ms@, name@, i as int) == member(ms@, name@, 0),
                        *self == Json::Object(*ms),
                    decreases ms.len() - i,
                {
                    if same(ms[i].0.as_str(), name) {
                        return Some(&ms[i].1);
                    }
                    i += 1;
                }
                None
            },
            _ => None,
        }
    }

    /// The text of a string.
    pub fn as_text(&self) -> (r: Option<&str>)
        ensures
            match r {
                Some(s) => self.text_spec() == Some(s@),
                None => self.text_spec() is None,
            },
    {
        match self {
            Json::Text(s) => Some(s.as_str()),
            _ => None,
        }
    }

    /// The elements of a list.
    pub fn as_list(&self) -> (r: Option<&Vec<Json>>)
        ensures
            match r {
                Some(xs) => self.list_spec() == Some(xs@),
                None => self.list_spec() is None,
            },
    {
        match self {
            Json::List(xs) => Some(xs),
            _ => None,
        }
    }

    /// The value of a whole number that is not negative.
    pub fn as_whole(&self) -> (r: Option<u64>)
        ensures
            r == self.whole_spec(),
    {
        match self {
            Json::Number { whole, .. } => *whole,
            _ => None,
        }
    }

    /// The value of a number.
    pub fn as_number(&self) -> (r: Option<Num>)
        ensures
            r == self.number_spec(),
    {
        match self {
            Json::Number { value, .. } => *value,
            _ => None,
        }
    }
}

// ---------------------------------------------------------------------------
// Objects inside other text
// ---------------------------------------------------------------------------

/// Where a scan of JSON text stands: how many braces are open, whether it is
/// inside a string, and whether the next character of that string is escaped.
pub struct ScanState {
    pub depth: int,
    pub in_string: bool,
    pub escaped: bool,
}

/// The state after one more character.
pub open spec fn scan_step(st: ScanState, c: char) -> ScanState {
    if st.in_string {
        if st.escaped {
            ScanState { escaped: false, ..st }
        } else if c == '\\' {
            ScanState { escaped: true, ..st }
        } else if c == '"' {
            ScanState { in_string: false, ..st }
        } else {
            st
        }
    } else if c == '"' {
        ScanState { in_string: true, ..st }
    } else if c == '{' {
        ScanState { depth: st.depth + 1, ..st }
    } else if c == '}' {
        ScanState { depth: st.depth - 1, ..st }
    } else {
        st
    }
}

/// The state at position `i` of a scan that began at `start`.
pub open spec fn scan_state(s: Seq<char>, start: int, i: int) -> ScanState
    decreases i - start,
{
    if i <= start {
        ScanState { depth: 0, in_string: false, escaped: false }
    } else {
        scan_step(scan_state(s, start, i - 1), s[i - 1])
    }
}

/// Everything that was opened from `start` on is closed before `end`.
pub open spec fn closed_at(s: Seq<char>, start: int, end: int) -> bool {
    start < end <= s.len() && scan_state(s, start, end).depth == 0 && !scan_state(
        s,
        start,
        end,
    ).in_string
}

/// `s[start..end]` is the JSON object that begins at `start`: it opens there,
/// and `end` is the first position at which everything is closed again.
pub open spec fn object_span(s: Seq<char>, start: int, end: int) -> bool {
    &&& 0 <= start < s.len()
    &&& s[start] == '{'
    &&& closed_at(s, start, end)
    &&& forall|j: int| start < j < end ==> !closed_at(s, start, j)
}

/// A brace opens at byte `start` of a text in UTF-8.
pub open spec fn opens_at(raw: Seq<char>, start: int) -> bool {
    let bytes = vstd::utf8::encode_utf8(raw);
    0 <= start < bytes.len() && bytes[start] == 0x7b
}

/// A text from its byte `start` on.
pub open spec fn from_byte(raw: Seq<char>, start: int) -> Seq<char> {
    let bytes = vstd::utf8::encode_utf8(raw);
    vstd::utf8::decode_utf8(bytes.subrange(start, bytes.len() as int))
}

/// The JSON object that begins at byte `start` of a text. There is one where a
/// brace opens at that byte and is closed again.
pub fn extract_json_object_from(raw: &str, start: usize) -> (r: Option<String>)
    ensures
        match r {
            Some(o) => opens_at(raw@, start as int) && exists|end: int| #[trigger]
                object_span(from_byte(raw@, start as int), 0, end) && o@ == from_byte(
                    raw@,
                    start as int,
                ).take(end),
            None => !opens_at(raw@, start as int) || forall|end: int|
                !object_span(from_byte(raw@, start as int), 0, end),
        },
{
    let bytes = raw.as_bytes();
    if start >= bytes.len() || bytes[start] != 0x7b {
        return None;
    }
    proof {
        vstd::utf8::encode_utf8_valid_utf8(raw@);
        vstd::utf8::is_char_boundary_iff_not_is_continuation_byte(
            vstd::utf8::encode_utf8(raw@),
            start as int,
        );
    }
    let tail = raw.split_at(start).1;
    proof {
        vstd::utf8::encode_utf8_decode_utf8(tail@);
        assert(tail@ == from_byte(raw@, start as int));
    }
    let v = chars_of(tail);
    match object_end(&v, 0) {
        Some(end) => {
            assert(v@.subrange(0, end as int) =~= v@.take(end as int));
            Some(text_of(&v, 0, end))
        },
        None => None,
    }
}

/// Where the JSON object that begins at `start` ends.
pub fn object_end(v: &Vec<char>, start: usize) -> (r: Option<usize>)
    ensures
        match r {
            Some(end) => start < end <= v.len() && object_span(v@, start as int, end as int),
            None => forall|end: int| !object_span(v@, start as int, end),
        },
{
    if start >= v.len() || v[start] != '{' {
        return None;
    }
    let mut depth: usize = 0;
    let mut in_string: bool = false;
    let mut escaped: bool = false;
    let mut i: usize = start;
    while i < v.len()
        invariant
            start <= i <= v.len(),
            start < v.len(),
            v@[start as int] == '{',
            depth <= i - start,
            i > start ==> depth > 0 || in_string,
            i == start ==> !in_string,
            i > start ==> depth > 0,
            scan_state(v@, start as int, i as int) == (ScanState {
                depth: depth as int,
                in_string,
                escaped,
            }),
            forall|j: int| start < j <= i ==> !closed_at(v@, start as int, j),
        decreases v.len() - i,
    {
        let c: char = v[i];
        if in_string {
            if escaped {
                escaped = false;
            } else if c == '\\' {
                escaped = true;
            } else if c == '"' {
                in_string = false;
            }
        } else if c == '"' {
            in_string = true;
        } else if c == '{' {
            depth += 1;
        } else if c == '}' {
            depth -= 1;
            if depth == 0 {
                assert(closed_at(v@, start as int, i + 1));
                return Some(i + 1);
            }
        }
        i += 1;
    }
    assert forall|end: int| !object_span(v@, start as int, end) by {
        if object_span(v@, start as int, end) {
            assert(closed_at(v@, start as int, end));
        }
    }
    None
}

proof fn lemma_member(members: Seq<(String, Json)>, name: Seq<char>, i: int)
    requires
        0 <= i <= members.len(),
    ensures
        match member(members, name, i) {
            Some(v) => exists|k: int|
                i <= k < members.len() && (#[trigger] members[k]).0@ == name && members[k].1 == v,
            None => forall|k: int| i <= k < members.len() ==> (#[trigger] members[k]).0@ != name,
        },
    decreases members.len() - i,
{
    if i < members.len() {
        lemma_member(members, name, i + 1);
        if members[i].0@ != name && member(members, name, i) is Some {
            let v = member(members, name, i)->0;
            let k = choose|k: int|
                i + 1 <= k < members.len() && (#[trigger] members[k]).0@ == name && members[k].1
                    == v;
            assert(members[k].0@ == name);
        }
    }
}

/// What an object holds under a name is a value that stands there under exactly
/// that name.
pub proof fn law_members_are_found_by_name(members: Vec<(String, Json)>, name: Seq<char>)
    ensures
        match Json::Object(members).get_spec(name) {
            Some(v) => exists|k: int|
                0 <= k < members@.len() && (#[trigger] members@[k]).0@ == name && members@[k].1
                    == v,
            None => forall|k: int| 0 <= k < members@.len() ==> (#[trigger] members@[k]).0@ != name,
        },
{
    lemma_member(members@, name, 0);
}

proof fn lemma_inside(s: Seq<char>, start: int, end: int, j: int)
    requires
        object_span(s, start, end),
        start < j < end,
    ensures
        scan_state(s, start, j).depth >= 1,
    decreases j,
{
    if j == start + 1 {
        assert(scan_state(s, start, start).depth == 0);
    } else {
        lemma_inside(s, start, end, j - 1);
        assert(!closed_at(s, start, j));
    }
}

/// An object goes from its opening brace to the brace that closes it: its last
/// character closes a brace outside of any string, and up to there at least one
/// brace is open.
pub proof fn law_objects_end_at_their_closing_brace(s: Seq<char>, start: int, end: int, j: int)
    requires
        object_span(s, start, end),
        start < j < end,
    ensures
        s[start] == '{',
        s[end - 1] == '}',
        scan_state(s, start, j).depth >= 1,
        !scan_state(s, start, end - 1).in_string,
{
    lemma_inside(s, start, end, j);
    lemma_inside(s, start, end, end - 1);
}

/// Braces inside of a string do not count, and a quote behind a backslash does
/// not end a string.
pub proof fn law_strings_hide_their_braces(st: ScanState, c: char)
    requires
        st.in_string,
    ensures
        scan_step(st, c).depth == st.depth,
        !scan_step(st, c).in_string <==> c == '"' && !st.escaped,
        scan_step(st, c).escaped <==> c == '\\' && !st.escaped,
{
}

} // verus!
