//! The values of a group in order, and the ones in their middle.

use vstd::prelude::*;

use crate::num::Num;
use crate::order;
use crate::order::sort_by;

verus! {

/// Smaller values come first.
pub open spec fn smaller_value() -> spec_fn(Num, Num) -> bool {
    |a: Num, b: Num| a.lt(b)
}

/// The values from the smallest up.
pub fn sort_values(values: &Vec<Num>) -> (r: Vec<Num>)
    ensures
        r@ == order::sorted(values@, smaller_value()),
{
    let mut copy: Vec<Num> = Vec::new();
    let mut i: usize = 0;
    while i < values.len()
        invariant
            i <= values.len(),
            copy@ == values@.take(i as int),
        decreases values.len() - i,
    {
        copy.push(values[i]);
        i += 1;
        assert(copy@ =~= values@.take(i as int));
    }
    assert(values@.take(values@.len() as int) =~= values@);
    let precedes = |a: &Num, b: &Num| -> (x: bool)
        ensures
            x == (*a).lt(*b),
        { a.less(*b) };
    sort_by(copy, precedes, Ghost(smaller_value()))
}

/// What stands in the middle of values in order.
#[derive(Clone, Copy, Debug, PartialEq, Eq, Structural)]
pub enum Middle {
    Empty,
    One(Num),
    Two(Num, Num),
}

/// The middle of values in order: one of an odd number, two of an even one.
pub open spec fn middle_of(values: Seq<Num>) -> Middle {
    let s = order::sorted(values, smaller_value());
    let n = s.len() as int;
    if n == 0 {
        Middle::Empty
    } else if n % 2 == 1 {
        Middle::One(s[n / 2])
    } else {
        Middle::Two(s[n / 2 - 1], s[n / 2])
    }
}

/// The values from which a median is taken.
pub fn find_middle(values: &Vec<Num>) -> (r: Middle)
    ensures
        r == middle_of(values@),
{
    let s = sort_values(values);
    let n: usize = s.len();
    if n == 0 {
        Middle::Empty
    } else if n % 2 == 1 {
        Middle::One(s[n / 2])
    } else {
        Middle::Two(s[n / 2 - 1], s[n / 2])
    }
}

/// Values in order, as long as all of them are numbers: none is below the one
/// before it, and none is lost or added.
pub proof fn law_values_ascend(values: Seq<Num>)
    requires
        forall|i: int| 0 <= i < values.len() ==> !(#[trigger] values[i]).is_nan(),
    ensures
        order::sorted(values, smaller_value()).to_multiset() == values.to_multiset(),
        forall|i: int, j: int|
            0 <= i < j < values.len() ==> !(#[trigger] order::sorted(values, smaller_value())[j]).lt(
                #[trigger] order::sorted(values, smaller_value())[i],
            ),
{
    let by_rank = |a: Num, b: Num| a.rank() < b.rank();
    assert forall|a: Num, b: Num| values.contains(a) && values.contains(b) implies
        #[trigger] smaller_value()(a, b) == #[trigger] by_rank(a, b) by {}
    order::lemma_sorted_agree(values, smaller_value(), by_rank);
    order::lemma_sorted_in_order(values, by_rank);
    order::lemma_sorted_permutation(values, smaller_value());
    let s = order::sorted(values, smaller_value());
    assert forall|i: int, j: int| 0 <= i < j < values.len() implies !(#[trigger] s[j]).lt(
        #[trigger] s[i],
    ) by {
        assert(!by_rank(s[j], s[i]));
    }
}

/// The middle is taken where as many values come before it as after it: there is
/// an ascending rearrangement of the values with the same number of them on
/// either side of the middle. Every value is taken to be a number.
pub proof fn law_the_middle_has_as_many_on_either_side(values: Seq<Num>)
    requires
        forall|i: int| 0 <= i < values.len() ==> !(#[trigger] values[i]).is_nan(),
    ensures
        exists|s: Seq<Num>|
            #[trigger] is_ascending(s) && s.to_multiset() == values.to_multiset() && match middle_of(
                values,
            ) {
                Middle::Empty => values.len() == 0,
                Middle::One(m) => exists|k: int|
                    0 <= k && 2 * k + 1 == values.len() && #[trigger] s[k] == m,
                Middle::Two(a, b) => exists|k: int|
                    0 <= k && 2 * k + 2 == values.len() && #[trigger] s[k] == a && s[k + 1] == b,
            },
{
    let s = order::sorted(values, smaller_value());
    law_values_ascend(values);
    order::lemma_sorted_permutation(values, smaller_value());
    assert(is_ascending(s));
    let n = values.len() as int;
    match middle_of(values) {
        Middle::Empty => {},
        Middle::One(m) => {
            assert(2 * (n / 2) + 1 == n);
            assert(s[n / 2] == m);
        },
        Middle::Two(a, b) => {
            let k = n / 2 - 1;
            assert(2 * k + 2 == n);
            assert(s[k] == a && s[k + 1] == b);
        },
    }
}

/// No value is below the one before it.
pub open spec fn is_ascending(s: Seq<Num>) -> bool {
    forall|i: int, j: int| 0 <= i < j < s.len() ==> !(#[trigger] s[j]).lt(#[trigger] s[i])
}

} // verus!
