//! Decimal notation of whole numbers, and the grouping of their digits.

use vstd::prelude::*;

use crate::num::{Num, SIGN};
use crate::scan;
use crate::scan::{length, slice, split_at_first};
use crate::text;
use crate::text::cat2;

verus! {

pub open spec fn digit_char(d: int) -> char {
    (d + 48) as char
}

/// The decimal notation of a number, without leading zeros.
pub open spec fn decimal(n: nat) -> Seq<char>
    decreases n,
{
    if n < 10 {
        seq![digit_char(n as int)]
    } else {
        decimal(n / 10).push(digit_char((n % 10) as int))
    }
}

/// The decimal notation of a number.
pub fn decimal_text(n: u64) -> (r: String)
    ensures
        r@ == decimal(n as nat),
    decreases n,
{
    if n < 10 {
        let mut out = String::new();
        out.push((48u8 + n as u8) as char);
        assert(out@ =~= decimal(n as nat));
        out
    } else {
        let mut out = decimal_text(n / 10);
        out.push((48u8 + (n % 10) as u8) as char);
        out
    }
}

/// The decimal notation of a count.
pub fn count_text(n: usize) -> (r: String)
    ensures
        r@ == decimal(n as nat),
{
    decimal_text(n as u64)
}

/// Leading zeros up to a width.
pub open spec fn zeros(n: int) -> Seq<char> {
    Seq::new(
        if n > 0 {
            n as nat
        } else {
            0
        },
        |i: int| '0',
    )
}

/// A number with leading zeros up to a width.
pub open spec fn padded(n: nat, width: int) -> Seq<char> {
    zeros(width - decimal(n).len()) + decimal(n)
}

/// A number with leading zeros up to a width.
pub fn padded_text(n: u64, width: usize) -> (r: String)
    ensures
        r@ == padded(n as nat, width as int),
{
    let d = decimal_text(n);
    let len: usize = crate::scan::length(d.as_str());
    let mut out = String::new();
    let mut k: usize = len;
    while k < width
        invariant
            len == decimal(n as nat).len(),
            len <= k,
            k <= width || k == len,
            out@.len() == k - len,
            forall|i: int| 0 <= i < out@.len() ==> #[trigger] out@[i] == '0',
        decreases width - k,
    {
        out.push('0');
        k += 1;
    }
    assert(out@ =~= zeros(width - len));
    out.append(d.as_str());
    out
}

/// A signed number with its sign, also where it is positive.
pub open spec fn with_sign(n: int) -> Seq<char> {
    if n < 0 {
        "-"@ + decimal((-n) as nat)
    } else {
        "+"@ + decimal(n as nat)
    }
}

/// A difference of counts with its sign.
pub fn sign_text(after: usize, before: usize) -> (r: String)
    ensures
        r@ == with_sign(after - before),
{
    if after < before {
        crate::text::cat2("-", count_text(before - after).as_str())
    } else {
        crate::text::cat2("+", count_text(after - before).as_str())
    }
}

/// The signed number with the same bits.
pub open spec fn as_signed(n: u64) -> int {
    if n < 0x8000_0000_0000_0000 {
        n as int
    } else {
        n - 0x1_0000_0000_0000_0000
    }
}

fn to_signed(n: u64) -> (r: i128)
    ensures
        r == as_signed(n),
{
    if n < 0x8000_0000_0000_0000 {
        n as i128
    } else {
        n as i128 - 0x1_0000_0000_0000_0000
    }
}

/// The difference of two counts, taken as signed numbers, with its sign.
pub fn shift_text(after: u64, before: u64) -> (r: String)
    ensures
        r@ == with_sign(as_signed(after) - as_signed(before)),
{
    let a = to_signed(after);
    let b = to_signed(before);
    if a < b {
        crate::text::cat2("-", decimal_text((b - a) as u64).as_str())
    } else {
        crate::text::cat2("+", decimal_text((a - b) as u64).as_str())
    }
}

/// A signed number, with a sign only where it is negative.
pub open spec fn signed_decimal(n: int) -> Seq<char> {
    if n < 0 {
        "-"@ + decimal((-n) as nat)
    } else {
        decimal(n as nat)
    }
}

/// A difference of counts.
pub fn difference_text(after: u64, before: u64) -> (r: String)
    ensures
        r@ == signed_decimal(after - before),
{
    if after < before {
        crate::text::cat2("-", decimal_text(before - after).as_str())
    } else {
        decimal_text(after - before)
    }
}

// ---------------------------------------------------------------------------
// Grouping
// ---------------------------------------------------------------------------

/// Digits in groups of three, counted from the right, with `sep` between groups.
pub open spec fn grouped(s: Seq<char>, sep: char) -> Seq<char>
    decreases s.len(),
{
    if s.len() <= 3 {
        s
    } else {
        grouped(s.take(s.len() - 3), sep).push(sep) + s.skip(s.len() - 3)
    }
}

/// Puts digits in groups of three.
pub fn group_digits(s: &str, sep: char) -> (r: String)
    ensures
        r@ == grouped(s@, sep),
    decreases s@.len(),
{
    let n: usize = length(s);
    if n <= 3 {
        return s.to_owned();
    }
    let head = slice(s, 0, n - 3);
    let tail = slice(s, n - 3, n);
    assert(head@ =~= s@.take(n - 3));
    assert(tail@ =~= s@.skip(n - 3));
    let mut out = group_digits(head.as_str(), sep);
    out.push(sep);
    out.append(tail.as_str());
    out
}

proof fn lemma_keep_append(a: Seq<char>, b: Seq<char>, p: spec_fn(char) -> bool)
    ensures
        text::keep_chars(a + b, p) == text::keep_chars(a, p) + text::keep_chars(b, p),
    decreases b.len(),
{
    if b.len() == 0 {
        assert(a + b =~= a);
        assert(text::keep_chars(a, p) + Seq::empty() =~= text::keep_chars(a, p));
    } else {
        assert((a + b).drop_last() =~= a + b.drop_last());
        lemma_keep_append(a, b.drop_last(), p);
        assert(text::keep_chars(a + b, p) =~= text::keep_chars(a, p) + text::keep_chars(b, p));
    }
}

proof fn lemma_keep_all(s: Seq<char>, p: spec_fn(char) -> bool)
    requires
        forall|i: int| 0 <= i < s.len() ==> p(#[trigger] s[i]),
    ensures
        text::keep_chars(s, p) == s,
    decreases s.len(),
{
    if s.len() > 0 {
        lemma_keep_all(s.drop_last(), p);
        assert(s.drop_last().push(s.last()) =~= s);
    }
}

/// Grouping loses nothing: without the separators the digits are as before.
pub proof fn law_grouping_keeps_digits(s: Seq<char>, sep: char)
    requires
        forall|i: int| 0 <= i < s.len() ==> #[trigger] s[i] != sep,
    ensures
        text::keep_chars(grouped(s, sep), |c: char| c != sep) == s,
    decreases s.len(),
{
    let p = |c: char| c != sep;
    if s.len() <= 3 {
        lemma_keep_all(s, p);
    } else {
        let head = s.take(s.len() - 3);
        let tail = s.skip(s.len() - 3);
        law_grouping_keeps_digits(head, sep);
        lemma_keep_append(grouped(head, sep).push(sep), tail, p);
        assert(grouped(head, sep).push(sep).drop_last() =~= grouped(head, sep));
        lemma_keep_all(tail, p);
        assert(head + tail =~= s);
    }
}

/// A number with its sign and its digits in groups. `digits` is the decimal
/// notation of its absolute value.
pub open spec fn number_text(value: Num, digits: Seq<char>, decimals: usize, sep: char) -> Seq<
    char,
> {
    let parts = match scan::split_once(digits, "."@) {
        Some(p) => p,
        None => (digits, ""@),
    };
    let sign = if value.bits >= SIGN {
        "-"@
    } else {
        ""@
    };
    if decimals == 0 {
        sign + grouped(parts.0, sep)
    } else {
        sign + grouped(parts.0, sep) + "."@ + parts.1
    }
}

fn write_number(value: Num, digits: &str, decimals: usize, sep: char) -> (r: String)
    ensures
        r@ == number_text(value, digits@, decimals, sep),
{
    let (whole, fraction) = match split_at_first(digits, ".") {
        Some(p) => p,
        None => (digits.to_owned(), "".to_owned()),
    };
    let sign: &str = if value.bits >= SIGN {
        "-"
    } else {
        ""
    };
    let g = group_digits(whole.as_str(), sep);
    let mut out = cat2(sign, g.as_str());
    if decimals != 0 {
        out.append(".");
        out.append(fraction.as_str());
    }
    out
}

/// A number with its digits in groups, separated by underscores. `digits` is
/// the decimal notation of its absolute value.
pub fn fmt_num(value: Num, digits: &str, decimals: usize) -> (r: String)
    ensures
        r@ == number_text(value, digits@, decimals, '_'),
{
    write_number(value, digits, decimals, '_')
}

/// A number with its digits in groups, separated by commas. `digits` is the
/// decimal notation of its absolute value.
pub fn fmt_num_commas(value: Num, digits: &str, decimals: usize) -> (r: String)
    ensures
        r@ == number_text(value, digits@, decimals, ','),
{
    write_number(value, digits, decimals, ',')
}

/// A number with its sign, also where it is not negative.
pub open spec fn signed_text(value: Num, digits: Seq<char>, decimals: usize) -> Seq<char> {
    if Num::zero_spec().le(value) {
        "+"@ + number_text(value, digits, decimals, '_')
    } else {
        number_text(value, digits, decimals, '_')
    }
}

/// A number with its sign, its digits in groups separated by underscores.
pub fn signed_fmt_num(value: Num, digits: &str, decimals: usize) -> (r: String)
    ensures
        r@ == signed_text(value, digits@, decimals),
{
    let n = fmt_num(value, digits, decimals);
    if Num::zero().at_most(value) {
        cat2("+", n.as_str())
    } else {
        n
    }
}

/// A number with its sign, its digits in groups separated by commas.
pub fn signed_fmt_num_commas(value: Num, digits: &str, decimals: usize) -> (r: String)
    ensures
        r@ == (if Num::zero_spec().le(value) {
            "+"@
        } else {
            "-"@
        }) + number_text(value.abs_spec(), digits@, decimals, ','),
{
    let n = fmt_num_commas(value.abs(), digits, decimals);
    if Num::zero().at_most(value) {
        cat2("+", n.as_str())
    } else {
        cat2("-", n.as_str())
    }
}

// ---------------------------------------------------------------------------
// Reading
// ---------------------------------------------------------------------------

/// The value of a digit.
pub open spec fn digit_value(c: char) -> int {
    c as int - 48
}

/// The number that a row of digits stands for.
pub open spec fn digits_value(s: Seq<char>) -> int
    decreases s.len(),
{
    if s.len() == 0 {
        0
    } else {
        digits_value(s.drop_last()) * 10 + digit_value(s.last())
    }
}

/// Every character is a digit.
pub open spec fn only_digits(s: Seq<char>) -> bool {
    forall|i: int| 0 <= i < s.len() ==> text::is_digit(#[trigger] s[i])
}

/// The digits of a number behind a plus sign, which need not be there.
pub open spec fn unsigned_digits(s: Seq<char>) -> Seq<char> {
    if s.len() > 0 && s[0] == '+' {
        s.skip(1)
    } else {
        s
    }
}

/// The count that a text stands for, where it is one and fits.
pub open spec fn count_in(s: Seq<char>) -> Option<usize> {
    let d = unsigned_digits(s);
    if d.len() > 0 && only_digits(d) && digits_value(d) <= usize::MAX {
        Some(digits_value(d) as usize)
    } else {
        None
    }
}

proof fn lemma_prefix_value(s: Seq<char>, i: int)
    requires
        only_digits(s),
        0 <= i <= s.len(),
    ensures
        0 <= digits_value(s.take(i)) <= digits_value(s),
    decreases s.len(),
{
    if i == s.len() {
        assert(s.take(i) =~= s);
        if s.len() > 0 {
            assert(only_digits(s.drop_last())) by {
                assert forall|k: int| 0 <= k < s.len() - 1 implies text::is_digit(
                    #[trigger] s.drop_last()[k],
                ) by {
                    assert(s.drop_last()[k] == s[k]);
                }
            }
            lemma_prefix_value(s.drop_last(), s.len() - 1);
            assert(s.drop_last().take(s.len() - 1) =~= s.drop_last());
            assert(text::is_digit(s[s.len() - 1]));
        }
    } else {
        assert(only_digits(s.drop_last())) by {
            assert forall|k: int| 0 <= k < s.len() - 1 implies text::is_digit(
                #[trigger] s.drop_last()[k],
            ) by {
                assert(s.drop_last()[k] == s[k]);
            }
        }
        lemma_prefix_value(s.drop_last(), i);
        assert(s.drop_last().take(i) =~= s.take(i));
        assert(text::is_digit(s[s.len() - 1]));
    }
}

/// Reads a count: digits, with a plus sign before them or none.
#[verifier::loop_isolation(false)]
pub fn read_count(s: &str) -> (r: Option<usize>)
    ensures
        r == count_in(s@),
{
    let v = text::chars_of(s);
    let start: usize = if v.len() > 0 && v[0] == '+' {
        1
    } else {
        0
    };
    let ghost d = unsigned_digits(s@);
    assert(d =~= v@.skip(start as int));
    if start == v.len() {
        return None;
    }
    let mut value: usize = 0;
    let mut i: usize = start;
    assert(d.take(0) =~= Seq::<char>::empty());
    while i < v.len()
        invariant
            start <= i <= v.len(),
            value == digits_value(d.take(i - start)),
            only_digits(d.take(i - start)),
        decreases v.len() - i,
    {
        let c = v[i];
        assert(d[i - start] == c);
        assert(d.take(i - start + 1).drop_last() =~= d.take(i - start));
        if !text::digit(c) {
            return None;
        }
        assert forall|k: int| 0 <= k < i - start + 1 implies text::is_digit(
            #[trigger] d.take(i - start + 1)[k],
        ) by {
            if k < i - start {
                assert(d.take(i - start + 1)[k] == d.take(i - start)[k]);
            }
        }
        let low: usize = (c as u8 - 48u8) as usize;
        let up: Option<usize> = value.checked_mul(10);
        let next: Option<usize> = match up {
            Some(x) => x.checked_add(low),
            None => None,
        };
        match next {
            Some(x) => {
                value = x;
            },
            None => {
                proof {
                    if only_digits(d) {
                        lemma_prefix_value(d, i - start + 1);
                    }
                }
                return None;
            },
        }
        i += 1;
    }
    assert(d.take(d.len() as int) =~= d);
    Some(value)
}

/// The decimal notation of a number is read back as that number.
pub proof fn law_decimal_reads_back(n: nat)
    ensures
        decimal(n).len() > 0,
        only_digits(decimal(n)),
        digits_value(decimal(n)) == n,
        n <= usize::MAX ==> count_in(decimal(n)) == Some(n as usize),
    decreases n,
{
    let s = decimal(n);
    if n < 10 {
        assert(s.drop_last() =~= Seq::<char>::empty());
        assert(digits_value(s.drop_last()) == 0);
    } else {
        law_decimal_reads_back(n / 10);
        assert(s.drop_last() =~= decimal(n / 10));
        assert forall|k: int| 0 <= k < s.len() implies text::is_digit(#[trigger] s[k]) by {
            if k < s.len() - 1 {
                assert(s[k] == decimal(n / 10)[k]);
            }
        }
    }
    assert(text::is_digit(s[0]));
}

/// A padded number has at least the given width, and means the same.
pub proof fn law_padding_keeps_the_number(n: nat, width: int)
    requires
        0 <= width,
    ensures
        padded(n, width).len() == (if decimal(n).len() > width {
            decimal(n).len() as int
        } else {
            width
        }),
        digits_value(padded(n, width)) == n,
{
    law_decimal_reads_back(n);
    lemma_leading_zeros(width - decimal(n).len(), decimal(n));
}

proof fn lemma_leading_zeros(k: int, s: Seq<char>)
    ensures
        digits_value(zeros(k) + s) == digits_value(s),
    decreases s.len(),
{
    if s.len() > 0 {
        lemma_leading_zeros(k, s.drop_last());
        assert((zeros(k) + s).drop_last() =~= zeros(k) + s.drop_last());
    } else {
        lemma_zeros_are_nothing(k);
        assert(zeros(k) + s =~= zeros(k));
    }
}

proof fn lemma_zeros_are_nothing(k: int)
    ensures
        digits_value(zeros(k)) == 0,
    decreases k,
{
    if k > 0 {
        lemma_zeros_are_nothing(k - 1);
        assert(zeros(k).drop_last() =~= zeros(k - 1));
    }
}

/// Grouped digits have a separator before every third digit, counted from the
/// end, and nowhere else.
pub proof fn law_digits_are_grouped_by_three(s: Seq<char>, sep: char, i: int)
    requires
        forall|k: int| 0 <= k < s.len() ==> #[trigger] s[k] != sep,
        0 <= i < grouped(s, sep).len(),
    ensures
        grouped(s, sep)[grouped(s, sep).len() - 1 - i] == sep <==> i % 4 == 3,
    decreases s.len(),
{
    let g = grouped(s, sep);
    if s.len() > 3 {
        let front = s.take(s.len() - 3);
        let f = grouped(front, sep);
        assert(g.len() == f.len() + 4);
        if i < 3 {
            assert(g[g.len() - 1 - i] == s[s.len() - 1 - i]);
        } else if i == 3 {
            assert(g[g.len() - 4] == sep);
        } else {
            assert forall|k: int| 0 <= k < front.len() implies #[trigger] front[k] != sep by {
                assert(front[k] == s[k]);
            }
            law_digits_are_grouped_by_three(front, sep, i - 4);
            assert(g[g.len() - 1 - i] == f[f.len() - 1 - (i - 4)]);
        }
    } else {
        assert(g[g.len() - 1 - i] == s[s.len() - 1 - i]);
    }
}

/// A signed number tells its sign and its size.
pub proof fn law_signed_numbers_tell_sign_and_size(n: int)
    ensures
        with_sign(n).len() > 0 && with_sign(n)[0] == (if n < 0 {
            '-'
        } else {
            '+'
        }),
        digits_value(with_sign(n).skip(1)) == (if n < 0 {
            -n
        } else {
            n
        }),
        n < 0 ==> signed_decimal(n) == with_sign(n),
        n >= 0 ==> digits_value(signed_decimal(n)) == n,
{
    reveal_strlit("-");
    reveal_strlit("+");
    let size: nat = if n < 0 {
        (-n) as nat
    } else {
        n as nat
    };
    law_decimal_reads_back(size);
    assert(with_sign(n).skip(1) =~= decimal(size));
}

} // verus!
