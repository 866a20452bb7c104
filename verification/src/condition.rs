//! The kinds of condition that a puzzle can put on its secret number, and
//! what it means for a number to meet one.

use vstd::prelude::*;
use crate::digits::as_ints;
use crate::digits::avoids;
use crate::digits::decimal_digits;
use crate::digits::digit_sum;
use crate::digits::digit_total;
use crate::digits::digits;
use crate::digits::has_adjacent_pair;
use crate::digits::has_double;
use crate::digits::has_member;
use crate::digits::has_none_of;
use crate::digits::is_palindrome;
use crate::digits::reads_same_reversed;
use crate::divisors::divides;
use crate::divisors::is_multiple;
use crate::roots::is_cube;
use crate::roots::is_perfect_cube;
use crate::roots::is_perfect_square;
use crate::roots::is_square;

verus! {

/// A condition on a candidate number. The payload of a template is a
/// placeholder; that of a concrete condition was chosen so that the secret
/// meets it.
#[derive(Clone, PartialEq, Eq, Hash, Debug)]
pub enum Condition {
    /// The candidate is larger than the payload.
    LargerThan(i32),
    /// The candidate is smaller than the payload.
    SmallerThan(i32),
    /// The payload is one of the candidate's decimal digits.
    ContainsDigit(i32),
    /// The candidate's decimal digits sum to the payload.
    SumOfDigits(i32),
    /// The candidate is a whole multiple of the payload.
    HasFactor(i32),
    /// The payload is a whole multiple of the candidate.
    HasMultiple(i32),
    /// The payload says whether the candidate is a perfect square.
    IsSquare(bool),
    /// The payload says whether the candidate is a perfect cube.
    IsCube(bool),
    /// The payload says whether the candidate's digits read the same reversed.
    IsPalindrome(bool),
    /// None of the candidate's decimal digits is in the payload.
    DoesntContain(Vec<i32>),
    /// The payload says whether some digit stands twice in a row in the
    /// candidate.
    ContainsDigitAlliteration(bool),
}

/// An evaluation would have divided by zero.
#[derive(Clone, Copy, PartialEq, Eq, Debug)]
pub struct ArithmeticError;

/// The candidate `n` meets the condition `c`. A test of divisibility by zero
/// is not met.
pub open spec fn holds(c: Condition, n: int) -> bool {
    match c {
        Condition::LargerThan(k) => n > k,
        Condition::SmallerThan(k) => n < k,
        Condition::ContainsDigit(d) => decimal_digits(n).contains(d as int),
        Condition::SumOfDigits(s) => digit_sum(decimal_digits(n)) == s,
        Condition::HasFactor(f) => divides(f as int, n),
        Condition::HasMultiple(m) => divides(n, m as int),
        Condition::IsSquare(b) => is_perfect_square(n) == b,
        Condition::IsCube(b) => is_perfect_cube(n) == b,
        Condition::IsPalindrome(b) => is_palindrome(decimal_digits(n)) == b,
        Condition::DoesntContain(excluded) => avoids(decimal_digits(n), as_ints(excluded@)),
        Condition::ContainsDigitAlliteration(b) => has_double(decimal_digits(n)) == b,
    }
}

/// The payload of `c` is one that a concrete condition can have: a digit to
/// be contained is one of 0 to 9, a factor is positive, and excluded digits
/// are digits in rising order, so that none is listed twice.
pub open spec fn well_formed(c: Condition) -> bool {
    match c {
        Condition::ContainsDigit(d) => 0 <= d <= 9,
        Condition::HasFactor(f) => f >= 1,
        Condition::DoesntContain(excluded) => {
            &&& forall|i: int| 0 <= i < excluded@.len() ==> 0 <= #[trigger] excluded@[i] <= 9
            &&& forall|i: int, j: int|
                0 <= i < j < excluded@.len() ==> #[trigger] excluded@[i] < #[trigger] excluded@[j]
        },
        _ => true,
    }
}

/// Evaluating `c` on the candidate `n` divides by zero: a factor of zero, or
/// a multiple tested against the candidate zero.
pub open spec fn divides_by_zero(c: Condition, n: int) -> bool {
    match c {
        Condition::HasFactor(f) => f == 0,
        Condition::HasMultiple(_) => n == 0,
        _ => false,
    }
}

/// Evaluating a well-formed condition divides by zero only where a multiple
/// is tested against the candidate zero.
pub proof fn lemma_well_formed_division(c: Condition, n: int)
    requires
        well_formed(c),
    ensures
        divides_by_zero(c, n) <==> c is HasMultiple && n == 0,
{
}

impl Condition {
    /// Evaluates the condition on `num`, and reports a division by zero
    /// instead of an answer.
    pub fn evaluate(&self, num: i32) -> (r: Result<bool, ArithmeticError>)
        ensures
            r is Err <==> divides_by_zero(*self, num as int),
            r matches Ok(met) ==> met == holds(*self, num as int),
    {
        match self {
            Condition::LargerThan(k) => Ok(num > *k),
            Condition::SmallerThan(k) => Ok(num < *k),
            Condition::ContainsDigit(d) => Ok(has_member(&digits(num), *d)),
            Condition::SumOfDigits(s) => Ok(digit_total(num) == *s),
            Condition::HasFactor(f) => {
                if *f == 0 {
                    Err(ArithmeticError)
                } else {
                    Ok(is_multiple(num, *f))
                }
            },
            Condition::HasMultiple(m) => {
                if num == 0 {
                    Err(ArithmeticError)
                } else {
                    Ok(is_multiple(*m, num))
                }
            },
            Condition::IsSquare(b) => Ok(is_square(num) == *b),
            Condition::IsCube(b) => Ok(is_cube(num) == *b),
            Condition::IsPalindrome(b) => Ok(reads_same_reversed(&digits(num)) == *b),
            Condition::DoesntContain(excluded) => Ok(has_none_of(&digits(num), excluded)),
            Condition::ContainsDigitAlliteration(b) => Ok(has_adjacent_pair(&digits(num)) == *b),
        }
    }

    /// Whether `num` meets the condition. A division by zero counts as not
    /// met.
    pub fn check(&self, num: i32) -> (met: bool)
        ensures
            met == holds(*self, num as int),
    {
        match self.evaluate(num) {
            Ok(met) => met,
            Err(_) => false,
        }
    }
}

} // verus!
