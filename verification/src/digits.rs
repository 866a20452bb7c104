//! Decimal digits of an integer, and the predicates on digit sequences that
//! the conditions of the puzzle are built from.

use vstd::prelude::*;

verus! {

/// The absolute value of `n`.
pub open spec fn magnitude(n: int) -> nat {
    if n < 0 {
        (-n) as nat
    } else {
        n as nat
    }
}

/// The decimal digits of `n`, most significant first. Zero has the one digit 0.
pub open spec fn digits_of(n: nat) -> Seq<int>
    decreases n,
{
    if n < 10 {
        seq![n as int]
    } else {
        digits_of(n / 10).push((n % 10) as int)
    }
}

/// The digits that occur in the decimal text of `n`: those of its magnitude,
/// most significant first. A minus sign is no digit.
pub open spec fn decimal_digits(n: int) -> Seq<int> {
    digits_of(magnitude(n))
}

/// The number that a sequence of decimal digits, most significant first,
/// stands for.
pub open spec fn digits_value(s: Seq<int>) -> int
    decreases s.len(),
{
    if s.len() == 0 {
        0
    } else {
        digits_value(s.drop_last()) * 10 + s.last()
    }
}

/// The sum of the members of `s`.
pub open spec fn digit_sum(s: Seq<int>) -> int
    decreases s.len(),
{
    if s.len() == 0 {
        0
    } else {
        digit_sum(s.drop_last()) + s.last()
    }
}

/// `s` reads the same in both directions.
pub open spec fn is_palindrome(s: Seq<int>) -> bool {
    s =~= s.reverse()
}

/// The members of `s` at `i` and directly after it are equal.
pub open spec fn doubled_at(s: Seq<int>, i: int) -> bool {
    0 <= i && i + 1 < s.len() && s[i] == s[i + 1]
}

/// Some member of `s` is followed directly by an equal one.
pub open spec fn has_double(s: Seq<int>) -> bool {
    exists|i: int| #[trigger] doubled_at(s, i)
}

/// No member of `s` occurs in `excluded`.
pub open spec fn avoids(s: Seq<int>, excluded: Seq<int>) -> bool {
    forall|i: int| 0 <= i < s.len() ==> !excluded.contains(#[trigger] s[i])
}

/// The digits 0 to 9 that do not occur in `s`, in rising order.
pub open spec fn digits_absent_from(s: Seq<int>) -> Seq<int> {
    Seq::new(10, |d: int| d).filter(|d: int| !s.contains(d))
}

/// A sequence of machine integers, read as mathematical integers.
pub open spec fn as_ints(s: Seq<i32>) -> Seq<int> {
    s.map_values(|d: i32| d as int)
}

/// Every decimal digit lies between 0 and 9, and there is at least one.
pub proof fn lemma_digits_in_range(n: nat)
    ensures
        digits_of(n).len() >= 1,
        forall|i: int| 0 <= i < digits_of(n).len() ==> 0 <= #[trigger] digits_of(n)[i] <= 9,
    decreases n,
{
    if n >= 10 {
        lemma_digits_in_range(n / 10);
    }
}

/// The digits of `n` stand for `n`, and only zero starts with the digit 0: the
/// sequence is the decimal numeral of `n`.
pub proof fn lemma_digits_spell_number(n: nat)
    ensures
        digits_value(digits_of(n)) == n,
        n > 0 ==> digits_of(n)[0] != 0,
    decreases n,
{
    if n < 10 {
        assert(digits_value(digits_of(n).drop_last()) == 0);
    } else {
        lemma_digits_spell_number(n / 10);
        lemma_digits_in_range(n / 10);
        assert(digits_of(n).drop_last() =~= digits_of(n / 10));
    }
}

/// A number below `10^k` has at most `k` digits; stated for the ten digits
/// that a 32-bit magnitude can take.
pub proof fn lemma_digits_len_bounded(n: nat)
    requires
        n <= 0xffff_ffff,
    ensures
        digits_of(n).len() <= 10,
{
    reveal_with_fuel(digits_of, 11);
}

/// The magnitude of `num`, which always fits in 32 bits without a sign.
pub fn magnitude_of(num: i32) -> (m: u32)
    ensures
        m == magnitude(num as int),
{
    let wide: i64 = num as i64;
    if wide < 0 {
        (-wide) as u32
    } else {
        wide as u32
    }
}

/// The digits in the decimal text of `num`, most significant first.
pub fn digits(num: i32) -> (out: Vec<i32>)
    ensures
        as_ints(out@) == decimal_digits(num as int),
        1 <= out@.len() <= 10,
        forall|i: int| 0 <= i < out@.len() ==> 0 <= #[trigger] out@[i] <= 9,
{
    let mut rest: u32 = magnitude_of(num);
    let mut out: Vec<i32> = Vec::new();
    while rest >= 10
        invariant
            decimal_digits(num as int) == digits_of(rest as nat) + as_ints(out@),
        decreases rest,
    {
        let low: i32 = (rest % 10) as i32;
        out.insert(0, low);
        rest = rest / 10;
    }
    let ghost before = out@;
    out.insert(0, rest as i32);
    proof {
        assert(as_ints(out@) =~= seq![rest as int] + as_ints(before));
        lemma_digits_in_range(magnitude(num as int));
        lemma_digits_len_bounded(magnitude(num as int));
        assert forall|i: int| 0 <= i < out@.len() implies 0 <= #[trigger] out@[i] <= 9 by {
            assert(as_ints(out@)[i] == out@[i] as int);
        }
    }
    out
}

/// Whether `wanted` is a member of `items`.
pub fn has_member(items: &Vec<i32>, wanted: i32) -> (found: bool)
    ensures
        found == as_ints(items@).contains(wanted as int),
{
    let mut i: usize = 0;
    while i < items.len()
        invariant
            i <= items.len(),
            forall|j: int| 0 <= j < i ==> as_ints(items@)[j] != wanted as int,
        decreases items.len() - i,
    {
        if items[i] == wanted {
            assert(as_ints(items@)[i as int] == wanted as int);
            return true;
        }
        i += 1;
    }
    false
}

/// The sum of the digits in the decimal text of `num`.
pub fn digit_total(num: i32) -> (total: i32)
    ensures
        total == digit_sum(decimal_digits(num as int)),
        0 <= total <= 90,
{
    let items = digits(num);
    let mut total: i32 = 0;
    let mut i: usize = 0;
    while i < items.len()
        invariant
            i <= items.len() <= 10,
            forall|j: int| 0 <= j < items@.len() ==> 0 <= #[trigger] items@[j] <= 9,
            total == digit_sum(as_ints(items@).take(i as int)),
            0 <= total <= 9 * i,
        decreases items.len() - i,
    {
        assert(as_ints(items@).take(i + 1).drop_last() =~= as_ints(items@).take(i as int));
        total += items[i];
        i += 1;
    }
    assert(as_ints(items@).take(i as int) =~= as_ints(items@));
    total
}

/// Whether `items` reads the same in both directions.
pub fn reads_same_reversed(items: &Vec<i32>) -> (same: bool)
    ensures
        same == is_palindrome(as_ints(items@)),
{
    let len = items.len();
    let mut i: usize = 0;
    while i < len
        invariant
            i <= len == items.len(),
            forall|j: int| 0 <= j < i ==> #[trigger] items@[j] == items@[len - 1 - j],
        decreases len - i,
    {
        if items[i] != items[len - 1 - i] {
            assert(as_ints(items@)[i as int] != as_ints(items@).reverse()[i as int]);
            return false;
        }
        i += 1;
    }
    true
}

/// Whether some member of `items` is followed directly by an equal one.
pub fn has_adjacent_pair(items: &Vec<i32>) -> (found: bool)
    ensures
        found == has_double(as_ints(items@)),
{
    let mut i: usize = 1;
    while i < items.len()
        invariant
            1 <= i,
            forall|j: int| 0 <= j < i - 1 ==> !doubled_at(as_ints(items@), j),
        decreases items.len() - i,
    {
        if items[i - 1] == items[i] {
            assert(doubled_at(as_ints(items@), i - 1));
            return true;
        }
        i += 1;
    }
    false
}

/// Whether no member of `items` occurs in `excluded`.
pub fn has_none_of(items: &Vec<i32>, excluded: &Vec<i32>) -> (clear: bool)
    ensures
        clear == avoids(as_ints(items@), as_ints(excluded@)),
{
    let mut i: usize = 0;
    while i < items.len()
        invariant
            i <= items.len(),
            forall|j: int|
                0 <= j < i ==> !as_ints(excluded@).contains(#[trigger] as_ints(items@)[j]),
        decreases items.len() - i,
    {
        if has_member(excluded, items[i]) {
            assert(as_ints(items@)[i as int] == items[i as int] as int);
            return false;
        }
        i += 1;
    }
    true
}

} // verus!
