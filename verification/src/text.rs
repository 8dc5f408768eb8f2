//! Text operations, each specified over the sequence of characters of its argument.
//!
//! Positions are counted in characters, never in bytes, except where a
//! function says that it measures the UTF-8 length.

use vstd::prelude::*;

verus! {

/// `String::push`: the string grows by the given character, at its end.
pub assume_specification[ String::push ](s: &mut String, c: char)
    ensures
        final(s)@ == old(s)@.push(c),
;

/// The views of a list of strings.
pub open spec fn views(s: Seq<String>) -> Seq<Seq<char>> {
    Seq::new(s.len(), |i: int| s[i]@)
}

// ---------------------------------------------------------------------------
// Character classes
// ---------------------------------------------------------------------------

/// The Unicode `White_Space` property.
pub open spec fn is_white(c: char) -> bool {
    ||| '\u{9}' <= c <= '\u{d}'
    ||| c == ' '
    ||| c == '\u{85}'
    ||| c == '\u{a0}'
    ||| c == '\u{1680}'
    ||| '\u{2000}' <= c <= '\u{200a}'
    ||| c == '\u{2028}'
    ||| c == '\u{2029}'
    ||| c == '\u{202f}'
    ||| c == '\u{205f}'
    ||| c == '\u{3000}'
}

/// Whether a character is white space.
pub fn white(c: char) -> (r: bool)
    ensures
        r == is_white(c),
{
    ('\u{9}' <= c && c <= '\u{d}') || c == ' ' || c == '\u{85}' || c == '\u{a0}' || c == '\u{1680}'
        || ('\u{2000}' <= c && c <= '\u{200a}') || c == '\u{2028}' || c == '\u{2029}' || c
        == '\u{202f}' || c == '\u{205f}' || c == '\u{3000}'
}

pub open spec fn is_digit(c: char) -> bool {
    '0' <= c <= '9'
}

/// Whether a character is one of `0` to `9`.
pub fn digit(c: char) -> (r: bool)
    ensures
        r == is_digit(c),
{
    '0' <= c && c <= '9'
}

pub open spec fn is_letter(c: char) -> bool {
    'a' <= c <= 'z' || 'A' <= c <= 'Z'
}

/// Whether a character is an ASCII letter.
pub fn letter(c: char) -> (r: bool)
    ensures
        r == is_letter(c),
{
    ('a' <= c && c <= 'z') || ('A' <= c && c <= 'Z')
}

pub open spec fn is_word_char(c: char) -> bool {
    is_letter(c) || is_digit(c)
}

/// ASCII lower case of one character; other characters stay as they are.
pub open spec fn lower_char(c: char) -> char {
    if 'A' <= c <= 'Z' {
        (c as u8 + 32) as char
    } else {
        c
    }
}

fn to_lower_char(c: char) -> (r: char)
    ensures
        r == lower_char(c),
{
    if 'A' <= c && c <= 'Z' {
        ((c as u8) + 32) as char
    } else {
        c
    }
}

/// ASCII lower case of a text.
pub open spec fn lower(s: Seq<char>) -> Seq<char> {
    Seq::new(s.len(), |i: int| lower_char(s[i]))
}

/// Two texts that differ at most in the case of ASCII letters.
pub open spec fn same_ignoring_case(a: Seq<char>, b: Seq<char>) -> bool {
    lower(a) == lower(b)
}

/// How many characters of `s` satisfy `p`.
pub open spec fn count_chars(s: Seq<char>, p: spec_fn(char) -> bool) -> nat
    decreases s.len(),
{
    if s.len() == 0 {
        0
    } else {
        count_chars(s.drop_last(), p) + (if p(s.last()) {
            1nat
        } else {
            0nat
        })
    }
}

/// The characters of `s` that satisfy `p`, in order.
pub open spec fn keep_chars(s: Seq<char>, p: spec_fn(char) -> bool) -> Seq<char>
    decreases s.len(),
{
    if s.len() == 0 {
        Seq::empty()
    } else if p(s.last()) {
        keep_chars(s.drop_last(), p).push(s.last())
    } else {
        keep_chars(s.drop_last(), p)
    }
}

// ---------------------------------------------------------------------------
// Conversions and equality
// ---------------------------------------------------------------------------

/// The characters of a string.
pub fn chars_of(s: &str) -> (r: Vec<char>)
    ensures
        r@ == s@,
{
    let mut out: Vec<char> = Vec::new();
    for c in it: s.chars()
        invariant
            it.seq() == s@,
            out@ == it.seq().take(it.index() as int),
    {
        out.push(c);
    }
    out
}

/// The string made of `v[from..to]`.
pub fn text_of(v: &Vec<char>, from: usize, to: usize) -> (r: String)
    requires
        from <= to <= v.len(),
    ensures
        r@ == v@.subrange(from as int, to as int),
{
    let mut out = String::new();
    let mut i: usize = from;
    while i < to
        invariant
            from <= i <= to <= v.len(),
            out@ == v@.subrange(from as int, i as int),
        decreases to - i,
    {
        out.push(v[i]);
        i += 1;
        assert(v@.subrange(from as int, i as int) =~= v@.subrange(from as int, i - 1).push(
            v@[i - 1],
        ));
    }
    out
}

/// Whether two texts are equal.
pub fn same(a: &str, b: &str) -> (r: bool)
    ensures
        r == (a@ == b@),
{
    a.to_owned() == b.to_owned()
}

/// A copy of a list of strings.
pub fn copy_all(v: &Vec<String>) -> (r: Vec<String>)
    ensures
        r@ == v@,
{
    let mut out: Vec<String> = Vec::new();
    let mut i: usize = 0;
    while i < v.len()
        invariant
            i <= v.len(),
            out@ == v@.take(i as int),
        decreases v.len() - i,
    {
        out.push(v[i].clone());
        i += 1;
    }
    out
}

/// ASCII lower case of a text.
pub fn to_lower(s: &str) -> (r: String)
    ensures
        r@ == lower(s@),
{
    let v = chars_of(s);
    let mut out = String::new();
    let mut i: usize = 0;
    while i < v.len()
        invariant
            i <= v.len(),
            v@ == s@,
            out@ == lower(s@).take(i as int),
        decreases v.len() - i,
    {
        out.push(to_lower_char(v[i]));
        i += 1;
    }
    out
}

/// Whether two texts differ at most in the case of ASCII letters.
pub fn eq_ignore_case(a: &str, b: &str) -> (r: bool)
    ensures
        r == same_ignoring_case(a@, b@),
{
    same(to_lower(a).as_str(), to_lower(b).as_str())
}

/// All characters are ASCII.
pub open spec fn all_ascii(s: Seq<char>) -> bool {
    forall|i: int| 0 <= i < s.len() ==> (#[trigger] s[i] as u32) < 128
}

/// What `str::to_lowercase` gives for a text.
pub uninterp spec fn unicode_lower(s: Seq<char>) -> Seq<char>;

/// `str::to_lowercase`: a function of the text alone, and on ASCII text the
/// ASCII lower case. What it does to other letters is left to its name.
#[verifier::external_body]
fn to_unicode_lower(s: &str) -> (r: String)
    ensures
        r@ == unicode_lower(s@),
        all_ascii(s@) ==> r@ == lower(s@),
{
    s.to_lowercase()
}

/// Lower case of a text: that of its ASCII letters where there are no others.
pub open spec fn lower_case(s: Seq<char>) -> Seq<char> {
    if all_ascii(s) {
        lower(s)
    } else {
        unicode_lower(s)
    }
}

/// Lower case of a text.
pub fn to_lower_case(s: &str) -> (r: String)
    ensures
        r@ == lower_case(s@),
{
    to_unicode_lower(s)
}

/// What `char::is_alphanumeric` gives for a character.
pub uninterp spec fn unicode_alphanumeric(c: char) -> bool;

/// `char::is_alphanumeric`: a function of the character alone, and for an ASCII
/// character whether it is a letter or a digit. Which other characters count
/// is left to its name.
#[verifier::external_body]
fn is_unicode_alphanumeric(c: char) -> (r: bool)
    ensures
        r == unicode_alphanumeric(c),
        (c as u32) < 128 ==> r == is_word_char(c),
{
    c.is_alphanumeric()
}

/// A letter or a digit, of ASCII or beyond.
pub open spec fn alphanumeric(c: char) -> bool {
    if (c as u32) < 128 {
        is_word_char(c)
    } else {
        unicode_alphanumeric(c)
    }
}

/// Whether a character is a letter or a digit.
pub fn is_alphanumeric(c: char) -> (r: bool)
    ensures
        r == alphanumeric(c),
{
    is_unicode_alphanumeric(c)
}

// ---------------------------------------------------------------------------
// Putting texts together
// ---------------------------------------------------------------------------

/// The concatenation of two texts.
pub fn cat2(a: &str, b: &str) -> (r: String)
    ensures
        r@ == a@ + b@,
{
    let mut out = a.to_owned();
    out.append(b);
    out
}

/// The concatenation of three texts.
pub fn cat3(a: &str, b: &str, c: &str) -> (r: String)
    ensures
        r@ == a@ + b@ + c@,
{
    let mut out = cat2(a, b);
    out.append(c);
    out
}

/// The concatenation of four texts.
pub fn cat4(a: &str, b: &str, c: &str, d: &str) -> (r: String)
    ensures
        r@ == a@ + b@ + c@ + d@,
{
    let mut out = cat3(a, b, c);
    out.append(d);
    out
}

/// The concatenation of five texts.
pub fn cat5(a: &str, b: &str, c: &str, d: &str, e: &str) -> (r: String)
    ensures
        r@ == a@ + b@ + c@ + d@ + e@,
{
    let mut out = cat4(a, b, c, d);
    out.append(e);
    out
}

// ---------------------------------------------------------------------------
// Trimming
// ---------------------------------------------------------------------------

/// `s` without its longest prefix of characters that satisfy `p`.
pub open spec fn skip_front(s: Seq<char>, p: spec_fn(char) -> bool) -> Seq<char>
    decreases s.len(),
{
    if s.len() > 0 && p(s[0]) {
        skip_front(s.skip(1), p)
    } else {
        s
    }
}

/// `s` without its longest suffix of characters that satisfy `p`.
pub open spec fn skip_back(s: Seq<char>, p: spec_fn(char) -> bool) -> Seq<char>
    decreases s.len(),
{
    if s.len() > 0 && p(s.last()) {
        skip_back(s.drop_last(), p)
    } else {
        s
    }
}

pub open spec fn white_class() -> spec_fn(char) -> bool {
    |c: char| is_white(c)
}

pub open spec fn only(x: char) -> spec_fn(char) -> bool {
    |c: char| c == x
}

/// `s` without leading white space.
pub open spec fn trim_start(s: Seq<char>) -> Seq<char> {
    skip_front(s, white_class())
}

/// `s` without trailing white space.
pub open spec fn trim_end(s: Seq<char>) -> Seq<char> {
    skip_back(s, white_class())
}

/// `s` without leading and trailing white space.
pub open spec fn trim(s: Seq<char>) -> Seq<char> {
    trim_end(trim_start(s))
}

/// A text with nothing but white space in it.
pub open spec fn is_blank(s: Seq<char>) -> bool {
    trim(s).len() == 0
}

proof fn lemma_skip_front(s: Seq<char>, p: spec_fn(char) -> bool)
    ensures
        skip_front(s, p).len() <= s.len(),
        skip_front(s, p) == s.skip(s.len() - skip_front(s, p).len()),
        skip_front(s, p).len() > 0 ==> !p(skip_front(s, p)[0]),
    decreases s.len(),
{
    if s.len() > 0 && p(s[0]) {
        lemma_skip_front(s.skip(1), p);
        let r = skip_front(s, p);
        assert(s.skip(1).skip(s.len() - 1 - r.len()) =~= s.skip(s.len() - r.len()));
    } else {
        assert(s.skip(0) =~= s);
    }
}

proof fn lemma_skip_back(s: Seq<char>, p: spec_fn(char) -> bool)
    ensures
        skip_back(s, p).len() <= s.len(),
        skip_back(s, p) == s.take(skip_back(s, p).len() as int),
        skip_back(s, p).len() > 0 ==> !p(skip_back(s, p).last()),
    decreases s.len(),
{
    if s.len() > 0 && p(s.last()) {
        lemma_skip_back(s.drop_last(), p);
        let r = skip_back(s, p);
        assert(s.drop_last().take(r.len() as int) =~= s.take(r.len() as int));
    } else {
        assert(s.take(s.len() as int) =~= s);
    }
}

/// A trimmed text is a part of the text.
pub proof fn lemma_trim_part(s: Seq<char>) -> (start: int)
    ensures
        0 <= start,
        start + trim(s).len() <= s.len(),
        trim(s) == s.subrange(start, start + trim(s).len()),
{
    let a = trim_start(s);
    let t = trim(s);
    lemma_skip_front(s, white_class());
    lemma_skip_back(a, white_class());
    let start = s.len() - a.len();
    assert(t =~= s.subrange(start, start + t.len()));
    start
}

/// A trimmed text has no white space at its ends, and trimming it again
/// changes nothing.
pub proof fn lemma_trim_idempotent(s: Seq<char>)
    ensures
        trim(trim(s)) == trim(s),
        trim(s).len() > 0 ==> !is_white(trim(s)[0]) && !is_white(trim(s).last()),
{
    let a = trim_start(s);
    let t = trim(s);
    lemma_skip_front(s, white_class());
    lemma_skip_back(a, white_class());
    if t.len() > 0 {
        assert(t[0] == a[0]);
        assert(trim_start(t) == t);
        assert(trim_end(t) == t);
    }
}

spec fn class_of(x: Option<char>) -> spec_fn(char) -> bool {
    match x {
        Some(c) => only(c),
        None => white_class(),
    }
}

fn in_class(c: char, x: Option<char>) -> (r: bool)
    ensures
        r == class_of(x)(c),
{
    match x {
        Some(y) => c == y,
        None => white(c),
    }
}

fn front_of(v: &Vec<char>, x: Option<char>, Ghost(p): Ghost<spec_fn(char) -> bool>) -> (r: usize)
    requires
        p == class_of(x),
    ensures
        r <= v.len(),
        v@.skip(r as int) == skip_front(v@, p),
{
    let mut i: usize = 0;
    assert(v@.skip(0) =~= v@);
    while i < v.len() && in_class(v[i], x)
        invariant
            i <= v.len(),
            p == class_of(x),
            skip_front(v@.skip(i as int), p) == skip_front(v@, p),
        decreases v.len() - i,
    {
        assert(v@.skip(i as int).skip(1) =~= v@.skip(i + 1));
        i += 1;
    }
    i
}

fn back_of(v: &Vec<char>, from: usize, x: Option<char>, Ghost(p): Ghost<spec_fn(char) -> bool>) -> (r:
    usize)
    requires
        from <= v.len(),
        p == class_of(x),
    ensures
        from <= r <= v.len(),
        v@.subrange(from as int, r as int) == skip_back(
            v@.subrange(from as int, v.len() as int),
            p,
        ),
{
    let mut i: usize = v.len();
    while i > from && in_class(v[i - 1], x)
        invariant
            from <= i <= v.len(),
            p == class_of(x),
            skip_back(v@.subrange(from as int, i as int), p) == skip_back(
                v@.subrange(from as int, v.len() as int),
                p,
            ),
        decreases i,
    {
        assert(v@.subrange(from as int, i as int).drop_last() =~= v@.subrange(from as int, i - 1));
        i -= 1;
    }
    i
}

/// Removes leading and trailing white space.
pub fn trimmed(s: &str) -> (r: String)
    ensures
        r@ == trim(s@),
{
    let v = chars_of(s);
    let a: usize = front_of(&v, None, Ghost(white_class()));
    let b: usize = back_of(&v, a, None, Ghost(white_class()));
    assert(v@.subrange(a as int, v.len() as int) =~= v@.skip(a as int));
    text_of(&v, a, b)
}

/// Removes leading white space.
pub fn trimmed_start(s: &str) -> (r: String)
    ensures
        r@ == trim_start(s@),
{
    let v = chars_of(s);
    let a: usize = front_of(&v, None, Ghost(white_class()));
    assert(v@.subrange(a as int, v.len() as int) =~= v@.skip(a as int));
    text_of(&v, a, v.len())
}

/// Removes trailing white space.
pub fn trimmed_end(s: &str) -> (r: String)
    ensures
        r@ == trim_end(s@),
{
    let v = chars_of(s);
    let b: usize = back_of(&v, 0, None, Ghost(white_class()));
    assert(v@.subrange(0, v.len() as int) =~= v@);
    text_of(&v, 0, b)
}

/// Removes every leading `c`.
pub fn trimmed_start_of(s: &str, c: char) -> (r: String)
    ensures
        r@ == skip_front(s@, only(c)),
{
    let v = chars_of(s);
    let a: usize = front_of(&v, Some(c), Ghost(only(c)));
    assert(v@.subrange(a as int, v.len() as int) =~= v@.skip(a as int));
    text_of(&v, a, v.len())
}

/// Removes every trailing `c`.
pub fn trimmed_end_of(s: &str, c: char) -> (r: String)
    ensures
        r@ == skip_back(s@, only(c)),
{
    let v = chars_of(s);
    let b: usize = back_of(&v, 0, Some(c), Ghost(only(c)));
    assert(v@.subrange(0, v.len() as int) =~= v@);
    text_of(&v, 0, b)
}

/// Whether a text has nothing but white space in it.
pub fn blank(s: &str) -> (r: bool)
    ensures
        r == is_blank(s@),
{
    let t = trimmed(s);
    t.as_str().is_empty()
}

proof fn lemma_front_skipped(a: Seq<char>, s: Seq<char>, p: spec_fn(char) -> bool)
    requires
        forall|i: int| 0 <= i < a.len() ==> p(#[trigger] a[i]),
    ensures
        skip_front(a + s, p) == skip_front(s, p),
    decreases a.len(),
{
    if a.len() > 0 {
        assert((a + s)[0] == a[0]);
        assert((a + s).skip(1) =~= a.skip(1) + s);
        assert forall|i: int| 0 <= i < a.skip(1).len() implies p(#[trigger] a.skip(1)[i]) by {
            assert(a.skip(1)[i] == a[i + 1]);
        }
        lemma_front_skipped(a.skip(1), s, p);
    } else {
        assert(a + s =~= s);
    }
}

proof fn lemma_back_skipped(s: Seq<char>, b: Seq<char>, p: spec_fn(char) -> bool)
    requires
        forall|i: int| 0 <= i < b.len() ==> p(#[trigger] b[i]),
    ensures
        skip_back(s + b, p) == skip_back(s, p),
    decreases b.len(),
{
    if b.len() > 0 {
        assert((s + b).last() == b[b.len() - 1]);
        assert((s + b).drop_last() =~= s + b.drop_last());
        assert forall|i: int| 0 <= i < b.drop_last().len() implies p(
            #[trigger] b.drop_last()[i],
        ) by {
            assert(b.drop_last()[i] == b[i]);
        }
        lemma_back_skipped(s, b.drop_last(), p);
    } else {
        assert(s + b =~= s);
    }
}

/// Trimming takes the white space off both ends and nothing else: what begins
/// and ends with another character comes out of any white space around it.
pub proof fn law_trimming_takes_off_white_space(a: Seq<char>, s: Seq<char>, b: Seq<char>)
    requires
        forall|i: int| 0 <= i < a.len() ==> is_white(#[trigger] a[i]),
        forall|i: int| 0 <= i < b.len() ==> is_white(#[trigger] b[i]),
        s.len() > 0 ==> !is_white(s[0]) && !is_white(s[s.len() - 1]),
    ensures
        trim(a + s + b) == s,
        is_blank(a + s + b) <==> s.len() == 0,
        s.len() > 0 ==> trim_start(a + s + b) == s + b && trim_end(a + s + b) == a + s,
{
    let p = white_class();
    assert forall|i: int| 0 <= i < a.len() implies p(#[trigger] a[i]) by {}
    assert forall|i: int| 0 <= i < b.len() implies p(#[trigger] b[i]) by {}
    assert(a + s + b =~= a + (s + b));
    lemma_front_skipped(a, s + b, p);
    if s.len() > 0 {
        assert((s + b)[0] == s[0]);
        assert(skip_front(s + b, p) == s + b);
        lemma_back_skipped(s, b, p);
        lemma_back_skipped(a + s, b, p);
        assert((a + s).last() == s[s.len() - 1]);
    } else {
        assert(s + b =~= b);
        assert(b + s =~= b);
        lemma_front_skipped(b, s, p);
        assert(skip_front(s, p) == s);
        assert(trim(a + s + b) =~= s);
    }
}

/// In lower case a letter is the small letter at the same place of the alphabet,
/// and every other character stays as it is.
pub proof fn law_lower_case_keeps_the_letters(s: Seq<char>, i: int)
    requires
        0 <= i < s.len(),
    ensures
        lower(s).len() == s.len(),
        'A' <= s[i] <= 'Z' ==> 'a' <= lower(s)[i] <= 'z' && lower(s)[i] as int - 'a' as int
            == s[i] as int - 'A' as int,
        !('A' <= s[i] <= 'Z') ==> lower(s)[i] == s[i],
        lower(lower(s)) == lower(s),
{
    assert forall|k: int| 0 <= k < s.len() implies lower(lower(s))[k] == lower(s)[k] by {}
    assert(lower(lower(s)) =~= lower(s));
}

/// Keeping characters goes through a text piece by piece: a character is kept
/// exactly where it passes, in the order of the text.
pub proof fn law_characters_are_kept_in_order(a: Seq<char>, b: Seq<char>, p: spec_fn(char) -> bool)
    ensures
        keep_chars(a + b, p) == keep_chars(a, p) + keep_chars(b, p),
        a.len() == 1 && p(a[0]) ==> keep_chars(a, p) == a,
        a.len() == 1 && !p(a[0]) ==> keep_chars(a, p).len() == 0,
        count_chars(b, p) == keep_chars(b, p).len(),
    decreases b.len(),
{
    if a.len() == 1 {
        assert(a.drop_last().len() == 0);
        assert(keep_chars(a.drop_last(), p) =~= Seq::empty());
        assert(Seq::<char>::empty().push(a[0]) =~= a);
    }
    if b.len() > 0 {
        law_characters_are_kept_in_order(a, b.drop_last(), p);
        assert((a + b).drop_last() =~= a + b.drop_last());
        assert(keep_chars(a + b, p) =~= keep_chars(a, p) + keep_chars(b, p));
    } else {
        assert(a + b =~= a);
        assert(keep_chars(a, p) + keep_chars(b, p) =~= keep_chars(a, p));
    }
}

} // verus!
