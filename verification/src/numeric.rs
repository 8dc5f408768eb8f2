//! Numbers in text: which texts denote a number, and which numbers a text mentions.

use vstd::prelude::*;

use crate::num::Num;
use crate::scan::without_chars;
use crate::text;
use crate::text::{chars_of, digit, same, text_of, to_lower};

verus! {

/// The end of the run of digits that begins at `i`.
pub open spec fn digits_end(s: Seq<char>, i: int) -> int
    decreases s.len() - i,
{
    if 0 <= i < s.len() && text::is_digit(s[i]) {
        digits_end(s, i + 1)
    } else {
        i
    }
}

pub proof fn lemma_digits_end(s: Seq<char>, i: int)
    requires
        0 <= i <= s.len(),
    ensures
        i <= digits_end(s, i) <= s.len(),
        i < s.len() && text::is_digit(s[i]) ==> i < digits_end(s, i),
    decreases s.len() - i,
{
    if i < s.len() && text::is_digit(s[i]) {
        lemma_digits_end(s, i + 1);
    }
}

fn run_end(v: &Vec<char>, i: usize) -> (r: usize)
    requires
        i <= v.len(),
    ensures
        r == digits_end(v@, i as int),
        i <= r <= v.len(),
{
    let mut k: usize = i;
    while k < v.len() && digit(v[k])
        invariant
            i <= k <= v.len(),
            digits_end(v@, k as int) == digits_end(v@, i as int),
        decreases v.len() - k,
    {
        k += 1;
    }
    k
}

/// An exponent's digits, with a sign or without, up to the end of `s`.
pub open spec fn exponent_from(s: Seq<char>, i: int) -> bool {
    let j = if i < s.len() && (s[i] == '+' || s[i] == '-') {
        i + 1
    } else {
        i
    };
    j < s.len() && text::is_digit(s[j]) && digits_end(s, j) == s.len()
}

/// A decimal number from position `i` to the end of `s`: digits with at most
/// one point among or around them, and an exponent or none.
pub open spec fn number_from(s: Seq<char>, i: int) -> bool {
    let a = digits_end(s, i);
    let point = a < s.len() && s[a] == '.';
    let b = if point {
        digits_end(s, a + 1)
    } else {
        a
    };
    let some_digit = a > i || (point && b > a + 1);
    some_digit && (b == s.len() || (b < s.len() && (s[b] == 'e' || s[b] == 'E') && exponent_from(
        s,
        b + 1,
    )))
}

/// The texts that denote a binary64 number: a decimal number, an infinity or
/// "not a number", with a sign or without, and nothing around it.
pub open spec fn is_float_text(s: Seq<char>) -> bool {
    let i = if s.len() > 0 && (s[0] == '+' || s[0] == '-') {
        1int
    } else {
        0int
    };
    let word = text::lower(s.skip(i));
    word == "inf"@ || word == "infinity"@ || word == "nan"@ || number_from(s, i)
}

fn exponent_at(v: &Vec<char>, i: usize) -> (r: bool)
    requires
        i <= v.len(),
    ensures
        r == exponent_from(v@, i as int),
{
    let mut j: usize = i;
    if i < v.len() && (v[i] == '+' || v[i] == '-') {
        j = i + 1;
    }
    j < v.len() && digit(v[j]) && run_end(v, j) == v.len()
}

fn number_at(v: &Vec<char>, i: usize) -> (r: bool)
    requires
        i <= v.len(),
    ensures
        r == number_from(v@, i as int),
{
    let a: usize = run_end(v, i);
    let point: bool = a < v.len() && v[a] == '.';
    let b: usize = if point {
        run_end(v, a + 1)
    } else {
        a
    };
    if !(a > i || (point && b > a + 1)) {
        return false;
    }
    b == v.len() || ((v[b] == 'e' || v[b] == 'E') && exponent_at(v, b + 1))
}

/// Whether a text denotes a binary64 number.
pub fn float_text(s: &str) -> (r: bool)
    ensures
        r == is_float_text(s@),
{
    let v = chars_of(s);
    let i: usize = if v.len() > 0 && (v[0] == '+' || v[0] == '-') {
        1
    } else {
        0
    };
    let n: usize = v.len();
    let rest = text_of(&v, i, n);
    assert(rest@ =~= s@.skip(i as int));
    let word = to_lower(rest.as_str());
    same(word.as_str(), "inf") || same(word.as_str(), "infinity") || same(word.as_str(), "nan")
        || number_at(&v, i)
}

/// A cell without its thousands separators and dollar signs.
pub open spec fn bare_number(s: Seq<char>) -> Seq<char> {
    text::keep_chars(s, |c: char| c != ',' && c != '$')
}

/// A cell that denotes a number; thousands separators and dollar signs do not count.
pub open spec fn is_numeric_cell(s: Seq<char>) -> bool {
    is_float_text(bare_number(s))
}

/// A cell without its thousands separators and dollar signs: the text of the
/// number in it, if it is one.
pub fn numeric_cell_text(s: &str) -> (r: String)
    ensures
        r@ == bare_number(s@),
{
    without_chars(s, ',', '$')
}

/// Whether a cell denotes a number.
pub fn numeric_cell(s: &str) -> (r: bool)
    ensures
        r == is_numeric_cell(s@),
{
    let bare = numeric_cell_text(s);
    float_text(bare.as_str())
}

// ---------------------------------------------------------------------------
// Numbers that a text mentions
// ---------------------------------------------------------------------------

/// From `i` on, a run of digits with a point and more than `max` digits after it.
pub open spec fn long_decimal_from(s: Seq<char>, max: int, i: int) -> bool
    decreases s.len() - i,
    via long_decimal_decreases
{
    if i < 0 || i >= s.len() {
        false
    } else if !text::is_digit(s[i]) {
        long_decimal_from(s, max, i + 1)
    } else {
        let a = digits_end(s, i);
        if a < s.len() && s[a] == '.' {
            let b = digits_end(s, a + 1);
            b - (a + 1) > max || long_decimal_from(s, max, b)
        } else {
            long_decimal_from(s, max, a)
        }
    }
}

#[via_fn]
proof fn long_decimal_decreases(s: Seq<char>, max: int, i: int) {
    if 0 <= i < s.len() && text::is_digit(s[i]) {
        lemma_digits_end(s, i);
        let a = digits_end(s, i);
        if a < s.len() && s[a] == '.' {
            lemma_digits_end(s, a + 1);
        }
    }
}

/// Whether a text mentions a number with more than `max_decimals` decimals.
pub fn contains_long_decimal(text: &str, max_decimals: usize) -> (r: bool)
    ensures
        r == long_decimal_from(text@, max_decimals as int, 0),
{
    let v = chars_of(text);
    let mut i: usize = 0;
    while i < v.len()
        invariant
            v@ == text@,
            i <= v.len(),
            long_decimal_from(v@, max_decimals as int, i as int) == long_decimal_from(
                v@,
                max_decimals as int,
                0,
            ),
        decreases v.len() - i,
    {
        if !digit(v[i]) {
            i += 1;
        } else {
            proof {
                lemma_digits_end(v@, i as int);
            }
            let a: usize = run_end(&v, i);
            if a < v.len() && v[a] == '.' {
                let b: usize = run_end(&v, a + 1);
                if b - (a + 1) > max_decimals {
                    return true;
                }
                i = b;
            } else {
                i = a;
            }
        }
    }
    false
}

/// Characters that continue a number once it has begun.
pub open spec fn continues_number(c: char) -> bool {
    text::is_digit(c) || c == '.' || c == ',' || c == '_'
}

/// The end of the run of such characters that begins at `i`.
pub open spec fn number_end(s: Seq<char>, i: int) -> int
    decreases s.len() - i,
{
    if 0 <= i < s.len() && continues_number(s[i]) {
        number_end(s, i + 1)
    } else {
        i
    }
}

proof fn lemma_number_end(s: Seq<char>, i: int)
    requires
        0 <= i <= s.len(),
    ensures
        i <= number_end(s, i) <= s.len(),
    decreases s.len() - i,
{
    if i < s.len() && continues_number(s[i]) {
        lemma_number_end(s, i + 1);
    }
}

/// The number text in a token: the token without its separators.
pub open spec fn token_text(token: Seq<char>) -> Seq<char> {
    text::keep_chars(token, |c: char| c != ',' && c != '_')
}

/// The texts of the numbers mentioned from `i` on. A number begins at a digit
/// or a minus sign and goes on through digits, points and separators; tokens
/// that denote no number are left out.
pub open spec fn numbers_from(s: Seq<char>, i: int) -> Seq<Seq<char>>
    decreases s.len() - i,
    via numbers_decreases
{
    if i < 0 || i >= s.len() {
        Seq::empty()
    } else if !(text::is_digit(s[i]) || s[i] == '-') {
        numbers_from(s, i + 1)
    } else {
        let end = number_end(s, i + 1);
        let t = token_text(s.subrange(i, end));
        if is_float_text(t) {
            seq![t] + numbers_from(s, end)
        } else {
            numbers_from(s, end)
        }
    }
}

#[via_fn]
proof fn numbers_decreases(s: Seq<char>, i: int) {
    if 0 <= i < s.len() {
        lemma_number_end(s, i + 1);
    }
}

/// The texts of the numbers that a text mentions, in order, without separators.
pub fn extract_numeric_texts(source: &str) -> (r: Vec<String>)
    ensures
        text::views(r@) == numbers_from(source@, 0),
{
    let v = chars_of(source);
    let mut out: Vec<String> = Vec::new();
    let mut i: usize = 0;
    assert(text::views(out@) + numbers_from(v@, 0) =~= numbers_from(v@, 0));
    while i < v.len()
        invariant
            v@ == source@,
            i <= v.len(),
            text::views(out@) + numbers_from(v@, i as int) == numbers_from(v@, 0),
        decreases v.len() - i,
    {
        if !(digit(v[i]) || v[i] == '-') {
            i += 1;
        } else {
            let ghost before = text::views(out@);
            proof {
                lemma_number_end(v@, i + 1);
            }
            let mut k: usize = i + 1;
            while k < v.len() && (digit(v[k]) || v[k] == '.' || v[k] == ',' || v[k] == '_')
                invariant
                    i < k <= v.len(),
                    number_end(v@, k as int) == number_end(v@, i + 1),
                decreases v.len() - k,
            {
                k += 1;
            }
            let token = text_of(&v, i, k);
            let t = without_chars(token.as_str(), ',', '_');
            if float_text(t.as_str()) {
                out.push(t);
                assert(text::views(out@) =~= before.push(t@));
                assert(before + numbers_from(v@, i as int) =~= before.push(t@) + numbers_from(
                    v@,
                    k as int,
                ));
            }
            i = k;
        }
    }
    assert(text::views(out@) + numbers_from(v@, i as int) =~= text::views(out@));
    out
}

// ---------------------------------------------------------------------------
// Numbers that agree
// ---------------------------------------------------------------------------

/// The bit pattern of a million.
pub const MILLION: u64 = 0x412e_8480_0000_0000;

/// The bit pattern of a thousand.
pub const THOUSAND: u64 = 0x408f_4000_0000_0000;

/// The bit pattern of one.
pub const ONE: u64 = 0x3ff0_0000_0000_0000;

/// The bit pattern of a half.
pub const HALF: u64 = 0x3fe0_0000_0000_0000;

/// The bit pattern of a twentieth.
pub const TWENTIETH: u64 = 0x3fa9_9999_9999_999a;

/// A number of this size or of a larger one is among the two.
pub open spec fn reaches(a: Num, b: Num, size: Num) -> bool {
    size.le(a.abs_spec()) || size.le(b.abs_spec())
}

/// How far two numbers that agree may lie apart: the more, the larger they are.
pub open spec fn tolerance(a: Num, b: Num) -> Num {
    if reaches(a, b, Num { bits: MILLION }) {
        Num { bits: ONE }
    } else if reaches(a, b, Num { bits: THOUSAND }) {
        Num { bits: HALF }
    } else {
        Num { bits: TWENTIETH }
    }
}

fn reach(a: Num, b: Num, size: Num) -> (r: bool)
    ensures
        r == reaches(a, b, size),
{
    size.at_most(a.abs()) || size.at_most(b.abs())
}

/// Whether two numbers agree but for rounding. `distance` is the absolute
/// difference of the two.
pub fn approx_number_match(a: Num, b: Num, distance: Num) -> (r: bool)
    ensures
        r == distance.le(tolerance(a, b)),
{
    let allowed = if reach(a, b, Num { bits: MILLION }) {
        Num { bits: ONE }
    } else if reach(a, b, Num { bits: THOUSAND }) {
        Num { bits: HALF }
    } else {
        Num { bits: TWENTIETH }
    };
    distance.at_most(allowed)
}

proof fn lemma_digits_run(s: Seq<char>, from: int, to: int)
    requires
        0 <= from <= to <= s.len(),
        forall|i: int| from <= i < to ==> text::is_digit(#[trigger] s[i]),
        to < s.len() ==> !text::is_digit(s[to]),
    ensures
        digits_end(s, from) == to,
    decreases to - from,
{
    if from < to {
        assert(text::is_digit(s[from]));
        lemma_digits_run(s, from + 1, to);
    }
}

/// Digits are a number, and so are digits with a point between or beside them.
pub proof fn law_digits_with_a_point_are_numbers(a: Seq<char>, b: Seq<char>)
    requires
        a.len() + b.len() > 0,
        forall|i: int| 0 <= i < a.len() ==> text::is_digit(#[trigger] a[i]),
        forall|i: int| 0 <= i < b.len() ==> text::is_digit(#[trigger] b[i]),
    ensures
        is_float_text(a + seq!['.'] + b),
        is_float_text(seq!['-'] + (a + seq!['.'] + b)),
        a.len() > 0 ==> is_float_text(a) && is_float_text(seq!['-'] + a),
{
    let s = a + seq!['.'] + b;
    let n = a.len() as int;
    assert forall|i: int| 0 <= i < n implies text::is_digit(#[trigger] s[i]) by {
        assert(s[i] == a[i]);
    }
    assert(s[n] == '.');
    lemma_digits_run(s, 0, n);
    assert forall|i: int| n + 1 <= i < s.len() implies text::is_digit(#[trigger] s[i]) by {
        assert(s[i] == b[i - n - 1]);
    }
    lemma_digits_run(s, n + 1, s.len() as int);
    assert(number_from(s, 0));
    let t = seq!['-'] + s;
    assert forall|i: int| 1 <= i < n + 1 implies text::is_digit(#[trigger] t[i]) by {
        assert(t[i] == s[i - 1]);
    }
    assert(t[n + 1] == '.');
    lemma_digits_run(t, 1, n + 1);
    assert forall|i: int| n + 2 <= i < t.len() implies text::is_digit(#[trigger] t[i]) by {
        assert(t[i] == s[i - 1]);
    }
    lemma_digits_run(t, n + 2, t.len() as int);
    assert(number_from(t, 1));
    assert(t[0] == '-');
    if n > 0 {
        assert(s[0] == a[0]);
        assert(text::is_digit(a[0]));
        lemma_digits_run(a, 0, n);
        assert(number_from(a, 0));
        let u = seq!['-'] + a;
        assert forall|i: int| 1 <= i < u.len() implies text::is_digit(#[trigger] u[i]) by {
            assert(u[i] == a[i - 1]);
        }
        lemma_digits_run(u, 1, u.len() as int);
        assert(number_from(u, 1));
        assert(u[0] == '-');
    } else {
        assert(s[0] == '.');
    }
}

/// Commas and dollar signs in a cell do not count.
pub proof fn law_commas_and_dollars_are_passed_over(a: Seq<char>, c: char, b: Seq<char>)
    requires
        c == ',' || c == '$',
    ensures
        bare_number(a + seq![c] + b) == bare_number(a + b),
        is_numeric_cell(a + seq![c] + b) == is_numeric_cell(a + b),
{
    let p = |x: char| x != ',' && x != '$';
    text::law_characters_are_kept_in_order(a + seq![c], b, p);
    text::law_characters_are_kept_in_order(a, seq![c], p);
    text::law_characters_are_kept_in_order(seq![c], b, p);
    text::law_characters_are_kept_in_order(a, b, p);
    assert(text::keep_chars(a, p) + text::keep_chars(seq![c], p) =~= text::keep_chars(a, p));
}

/// An empty cell is no number, nor is one that begins with a letter, except for
/// the words for what is infinite or not a number.
pub proof fn law_words_are_no_numbers(s: Seq<char>)
    requires
        s.len() == 0 || text::is_letter(s[0]),
        text::lower(s) != "inf"@,
        text::lower(s) != "infinity"@,
        text::lower(s) != "nan"@,
    ensures
        !is_float_text(s),
{
    reveal_strlit("inf");
    reveal_strlit("infinity");
    reveal_strlit("nan");
    assert(s.skip(0) =~= s);
    assert(digits_end(s, 0) == 0);
}

/// A decimal is too long exactly where more digits follow its point than allowed.
pub proof fn law_long_decimals_have_many_digits(a: Seq<char>, b: Seq<char>, max: int)
    requires
        a.len() > 0,
        0 <= max,
        forall|i: int| 0 <= i < a.len() ==> text::is_digit(#[trigger] a[i]),
        forall|i: int| 0 <= i < b.len() ==> text::is_digit(#[trigger] b[i]),
    ensures
        long_decimal_from(a + seq!['.'] + b, max, 0) <==> b.len() > max,
        !long_decimal_from(a, max, 0),
{
    let s = a + seq!['.'] + b;
    let n = a.len() as int;
    assert forall|i: int| 0 <= i < n implies text::is_digit(#[trigger] s[i]) by {
        assert(s[i] == a[i]);
    }
    assert(s[n] == '.');
    lemma_digits_run(s, 0, n);
    assert forall|i: int| n + 1 <= i < s.len() implies text::is_digit(#[trigger] s[i]) by {
        assert(s[i] == b[i - n - 1]);
    }
    lemma_digits_run(s, n + 1, s.len() as int);
    assert(text::is_digit(s[0]));
    assert(!long_decimal_from(s, max, s.len() as int));
    assert(text::is_digit(a[0]));
    lemma_digits_run(a, 0, n);
    assert(!long_decimal_from(a, max, n));
}

/// Two figures may differ by more the larger one of them is: by one from a
/// million on, by a half from a thousand on, and else by a twentieth.
pub proof fn law_larger_figures_may_differ_more(a: Num, b: Num)
    requires
        !a.is_nan() && !b.is_nan(),
    ensures
        tolerance(a, b) == tolerance(b, a),
        ({
            let size = if a.magnitude() >= b.magnitude() {
                a.magnitude()
            } else {
                b.magnitude()
            };
            &&& size >= MILLION ==> tolerance(a, b) == (Num { bits: ONE })
            &&& THOUSAND <= size < MILLION ==> tolerance(a, b) == (Num { bits: HALF })
            &&& size < THOUSAND ==> tolerance(a, b) == (Num { bits: TWENTIETH })
        }),
        (Num { bits: TWENTIETH }).lt(Num { bits: HALF }) && (Num { bits: HALF }).lt(
            Num { bits: ONE },
        ),
{
}

} // verus!
