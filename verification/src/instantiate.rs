//! Turning a template into a concrete condition that the secret meets.

use vstd::prelude::*;
use crate::condition::holds;
use crate::condition::well_formed;
use crate::condition::Condition;
use crate::digits::as_ints;
use crate::digits::decimal_digits;
use crate::digits::digit_sum;
use crate::digits::digit_total;
use crate::digits::digits;
use crate::digits::digits_absent_from;
use crate::digits::has_adjacent_pair;
use crate::digits::has_double;
use crate::digits::has_member;
use crate::digits::is_palindrome;
use crate::digits::lemma_digits_in_range;
use crate::digits::magnitude;
use crate::digits::reads_same_reversed;
use crate::divisors::divides;
use crate::divisors::divisors;
use crate::divisors::is_multiple;
use crate::divisors::lemma_divisors_complete;
use crate::random::draw_in_range;
use crate::random::draw_member;
use crate::roots::is_cube;
use crate::roots::is_perfect_cube;
use crate::roots::is_perfect_square;
use crate::roots::is_square;

verus! {

/// A pick was made outside the set of choices that the kind and the secret
/// leave, as every pick is when that set is empty.
#[derive(Clone, Copy, PartialEq, Eq, Debug)]
pub struct InvariantViolation;

/// `pick` is one of the choices that a template of this kind leaves for the
/// secret: a bound below the secret, a bound at most 200 above it, one of its
/// digits, one of its divisors, or a multiplier from 1 to 9 whose product
/// with the secret fits the payload. A kind without a choice admits every
/// pick.
pub open spec fn admissible(template: Condition, secret: int, pick: int) -> bool {
    match template {
        Condition::LargerThan(_) => 0 <= pick < secret,
        Condition::SmallerThan(_) => secret < pick <= secret + 200,
        Condition::ContainsDigit(_) => decimal_digits(secret).contains(pick),
        Condition::HasFactor(_) => 1 <= pick <= secret && divides(pick, secret),
        Condition::HasMultiple(_) => {
            &&& 1 <= pick < 10
            &&& secret != 0
            &&& i32::MIN <= pick * secret <= i32::MAX
        },
        _ => true,
    }
}

/// `c` is the concrete condition that `template` becomes for `secret` under
/// the choice `pick`: of the same kind, with the pick or what the secret
/// fixes as payload.
pub open spec fn is_instance(template: Condition, secret: int, pick: int, c: Condition) -> bool {
    match template {
        Condition::LargerThan(_) => c matches Condition::LargerThan(n) && n == pick,
        Condition::SmallerThan(_) => c matches Condition::SmallerThan(n) && n == pick,
        Condition::ContainsDigit(_) => c matches Condition::ContainsDigit(d) && d == pick,
        Condition::SumOfDigits(_) => c matches Condition::SumOfDigits(s) && s == digit_sum(
            decimal_digits(secret),
        ),
        Condition::HasFactor(_) => c matches Condition::HasFactor(f) && f == pick,
        Condition::HasMultiple(_) => c matches Condition::HasMultiple(m) && m == pick * secret,
        Condition::IsSquare(_) => c matches Condition::IsSquare(b) && b == is_perfect_square(
            secret,
        ),
        Condition::IsCube(_) => c matches Condition::IsCube(b) && b == is_perfect_cube(secret),
        Condition::IsPalindrome(_) => c matches Condition::IsPalindrome(b) && b == is_palindrome(
            decimal_digits(secret),
        ),
        Condition::DoesntContain(_) => c matches Condition::DoesntContain(excluded) && as_ints(
            excluded@,
        ) == digits_absent_from(decimal_digits(secret)),
        Condition::ContainsDigitAlliteration(_) => c matches Condition::ContainsDigitAlliteration(b)
            && b == has_double(decimal_digits(secret)),
    }
}

/// Every choice that a template of this kind may be given for `secret` is
/// admissible and fits the payload: the secret is positive for a lower bound
/// or a factor, leaves room for 200 above it for an upper bound, and is not
/// zero and at most a ninth of the payload's range for a multiple.
pub open spec fn can_instantiate(template: Condition, secret: int) -> bool {
    match template {
        Condition::LargerThan(_) => secret > 0,
        Condition::SmallerThan(_) => secret + 200 <= i32::MAX,
        Condition::HasFactor(_) => secret >= 1,
        Condition::HasMultiple(_) => secret != 0 && i32::MIN <= 9 * secret <= i32::MAX,
        _ => true,
    }
}

/// `c` is what `template` becomes for `secret` under some admissible choice.
pub open spec fn is_some_instance(template: Condition, secret: int, c: Condition) -> bool {
    exists|pick: int| admissible(template, secret, pick) && is_instance(template, secret, pick, c)
}

/// `templates` holds one template of each kind that a session draws from,
/// ten in all: every kind but the multiple. The placeholders are 0, no, and
/// no excluded digit.
pub open spec fn is_template_pool(templates: Seq<Condition>) -> bool {
    &&& templates.len() == 10
    &&& templates[0] == Condition::LargerThan(0)
    &&& templates[1] == Condition::SmallerThan(0)
    &&& templates[2] == Condition::ContainsDigit(0)
    &&& templates[3] == Condition::SumOfDigits(0)
    &&& templates[4] == Condition::HasFactor(0)
    &&& templates[5] == Condition::IsSquare(false)
    &&& templates[6] == Condition::ContainsDigitAlliteration(false)
    &&& templates[7] == Condition::IsCube(false)
    &&& templates[8] == Condition::IsPalindrome(false)
    &&& templates[9] matches Condition::DoesntContain(excluded) && excluded@.len() == 0
}

/// `pool` holds, place for place, an instance of each member of `templates`
/// for `secret` under some admissible choice.
pub open spec fn instantiated(templates: Seq<Condition>, secret: int, pool: Seq<Condition>) -> bool {
    &&& pool.len() == templates.len()
    &&& forall|i: int|
        0 <= i < templates.len() ==> is_some_instance(templates[i], secret, #[trigger] pool[i])
}

/// A template of any kind can be instantiated for every secret that a
/// session draws, from 100 to 9999.
pub proof fn lemma_drawn_secret_can_instantiate(template: Condition, secret: int)
    requires
        100 <= secret <= 9999,
    ensures
        can_instantiate(template, secret),
{
}

/// A digit that is absent from `s` is listed among the absent ones, and
/// nothing else is.
pub proof fn lemma_absent_digits(s: Seq<int>, d: int)
    ensures
        digits_absent_from(s).contains(d) <==> 0 <= d <= 9 && !s.contains(d),
{
    let all = Seq::new(10, |d: int| d);
    let pred = |d: int| !s.contains(d);
    if all.filter(pred).contains(d) {
        all.lemma_filter_contains_rev(pred, d);
    }
    if 0 <= d <= 9 && !s.contains(d) {
        all.lemma_filter_contains(pred, d);
    }
}

/// The absent digits among the first `k` digits are below `k` and rise.
proof fn lemma_absent_digits_rise(s: Seq<int>, k: int)
    requires
        0 <= k <= 10,
    ensures
        ({
            let found = Seq::new(10, |d: int| d).take(k).filter(|d: int| !s.contains(d));
            &&& forall|i: int| 0 <= i < found.len() ==> 0 <= #[trigger] found[i] < k
            &&& forall|i: int, j: int|
                0 <= i < j < found.len() ==> #[trigger] found[i] < #[trigger] found[j]
        }),
    decreases k,
{
    let all = Seq::new(10, |d: int| d);
    let pred = |d: int| !s.contains(d);
    if k == 0 {
        assert(all.take(0).filter(pred).len() == 0) by {
            all.take(0).lemma_filter_len(pred);
        }
    } else {
        lemma_absent_digits_rise(s, k - 1);
        assert(all.take(k) =~= all.take(k - 1).push(k - 1));
        all.take(k - 1).lemma_filter_push(k - 1, pred);
    }
}

/// The absent digits are digits, listed in rising order.
pub proof fn lemma_absent_digits_sorted(s: Seq<int>)
    ensures
        forall|i: int|
            0 <= i < digits_absent_from(s).len() ==> 0 <= #[trigger] digits_absent_from(s)[i] <= 9,
        forall|i: int, j: int|
            0 <= i < j < digits_absent_from(s).len() ==> #[trigger] digits_absent_from(s)[i]
                < #[trigger] digits_absent_from(s)[j],
{
    let all = Seq::new(10, |d: int| d);
    lemma_absent_digits_rise(s, 10);
    assert(all.take(10) =~= all);
}

/// The excluded digits of a secret are none of its own, and together with
/// its own they are the ten digits.
pub proof fn lemma_excluded_digits_complement(secret: int)
    ensures
        digits_absent_from(decimal_digits(secret)).to_set().disjoint(
            decimal_digits(secret).to_set(),
        ),
        digits_absent_from(decimal_digits(secret)).to_set().union(decimal_digits(secret).to_set())
            == Set::new(|d: int| 0 <= d <= 9),
{
    let own = decimal_digits(secret);
    let absent = digits_absent_from(own);
    lemma_digits_in_range(magnitude(secret));
    assert forall|d: int| !(absent.to_set().contains(d) && own.to_set().contains(d)) by {
        lemma_absent_digits(own, d);
    }
    assert forall|d: int|
        absent.to_set().union(own.to_set()).contains(d) <==> 0 <= d <= 9 by {
        lemma_absent_digits(own, d);
    }
}

/// A template instantiated under an admissible choice is met by the secret,
/// and its payload is well formed.
pub proof fn lemma_instance_holds(template: Condition, secret: int, pick: int, c: Condition)
    requires
        admissible(template, secret, pick),
        is_instance(template, secret, pick, c),
    ensures
        holds(c, secret),
        well_formed(c),
{
    match template {
        Condition::ContainsDigit(_) => {
            lemma_digits_in_range(magnitude(secret));
        },
        Condition::HasMultiple(_) => {
            assert((pick * secret) % secret == 0) by (nonlinear_arith)
                requires
                    secret != 0,
            ;
        },
        Condition::DoesntContain(_) => {
            let own = decimal_digits(secret);
            assert forall|i: int| 0 <= i < own.len() implies !digits_absent_from(own).contains(
                #[trigger] own[i],
            ) by {
                lemma_absent_digits(own, own[i]);
            }
            lemma_absent_digits_sorted(own);
            let excluded = c->DoesntContain_0;
            assert forall|i: int| 0 <= i < excluded@.len() implies 0 <= #[trigger] excluded@[i]
                <= 9 by {
                assert(as_ints(excluded@)[i] == excluded@[i]);
            }
            assert forall|i: int, j: int| 0 <= i < j < excluded@.len() implies #[trigger] excluded@[i]
                < #[trigger] excluded@[j] by {
                assert(as_ints(excluded@)[i] == excluded@[i]);
                assert(as_ints(excluded@)[j] == excluded@[j]);
            }
        },
        _ => {},
    }
}

/// The digits 0 to 9 that are not members of `present`, in rising order.
pub fn absent_digits(present: &Vec<i32>) -> (out: Vec<i32>)
    ensures
        as_ints(out@) == digits_absent_from(as_ints(present@)),
{
    let mut out: Vec<i32> = Vec::new();
    let ghost all = Seq::new(10, |d: int| d);
    let ghost pred = |d: int| !as_ints(present@).contains(d);
    let mut d: i32 = 0;
    proof {
        reveal(Seq::filter);
    }
    while d < 10
        invariant
            0 <= d <= 10,
            all == Seq::new(10, |d: int| d),
            pred == |d: int| !as_ints(present@).contains(d),
            as_ints(out@) == all.take(d as int).filter(pred),
        decreases 10 - d,
    {
        proof {
            assert(all.take(d + 1) =~= all.take(d as int).push(d as int));
            all.take(d as int).lemma_filter_push(d as int, pred);
        }
        if !has_member(present, d) {
            out.push(d);
        }
        d += 1;
    }
    assert(all.take(10) =~= all);
    out
}

/// One template of each kind that a session draws from, with placeholders
/// as payloads.
pub fn template_pool() -> (templates: Vec<Condition>)
    ensures
        is_template_pool(templates@),
{
    let mut templates: Vec<Condition> = Vec::new();
    templates.push(Condition::LargerThan(0));
    templates.push(Condition::SmallerThan(0));
    templates.push(Condition::ContainsDigit(0));
    templates.push(Condition::SumOfDigits(0));
    templates.push(Condition::HasFactor(0));
    templates.push(Condition::IsSquare(false));
    templates.push(Condition::ContainsDigitAlliteration(false));
    templates.push(Condition::IsCube(false));
    templates.push(Condition::IsPalindrome(false));
    templates.push(Condition::DoesntContain(Vec::new()));
    templates
}

/// An instance of each template for `secret`, in the templates' order, with
/// a random choice wherever a kind leaves one.
pub fn instantiate_all(templates: &Vec<Condition>, secret: i32) -> (pool: Vec<Condition>)
    requires
        forall|i: int|
            0 <= i < templates@.len() ==> can_instantiate(#[trigger] templates@[i], secret as int),
    ensures
        instantiated(templates@, secret as int, pool@),
        forall|i: int| 0 <= i < pool@.len() ==> holds(#[trigger] pool@[i], secret as int),
{
    let mut pool: Vec<Condition> = Vec::new();
    let mut i: usize = 0;
    while i < templates.len()
        invariant
            i <= templates.len(),
            pool@.len() == i,
            forall|j: int|
                0 <= j < templates@.len() ==> can_instantiate(
                    #[trigger] templates@[j],
                    secret as int,
                ),
            forall|j: int|
                0 <= j < i ==> is_some_instance(templates@[j], secret as int, #[trigger] pool@[j]),
            forall|j: int| 0 <= j < i ==> holds(#[trigger] pool@[j], secret as int),
        decreases templates.len() - i,
    {
        pool.push(templates[i].as_valid(secret));
        i += 1;
    }
    pool
}

impl Condition {
    /// The concrete condition that this template becomes for `secret` under
    /// the choice `pick`, where the pick is admissible.
    pub fn instantiate(&self, secret: i32, pick: i32) -> (r: Result<Condition, InvariantViolation>)
        ensures
            r is Ok <==> admissible(*self, secret as int, pick as int),
            r matches Ok(c) ==> is_instance(*self, secret as int, pick as int, c),
            r matches Ok(c) ==> holds(c, secret as int) && well_formed(c),
    {
        let r = match self {
            Condition::LargerThan(_) => {
                if 0 <= pick && pick < secret {
                    Ok(Condition::LargerThan(pick))
                } else {
                    Err(InvariantViolation)
                }
            },
            Condition::SmallerThan(_) => {
                if secret < pick && pick as i64 <= secret as i64 + 200 {
                    Ok(Condition::SmallerThan(pick))
                } else {
                    Err(InvariantViolation)
                }
            },
            Condition::ContainsDigit(_) => {
                if has_member(&digits(secret), pick) {
                    Ok(Condition::ContainsDigit(pick))
                } else {
                    Err(InvariantViolation)
                }
            },
            Condition::SumOfDigits(_) => Ok(Condition::SumOfDigits(digit_total(secret))),
            Condition::HasFactor(_) => {
                if 1 <= pick && pick <= secret && is_multiple(secret, pick) {
                    Ok(Condition::HasFactor(pick))
                } else {
                    Err(InvariantViolation)
                }
            },
            Condition::HasMultiple(_) => {
                if 1 <= pick && pick < 10 && secret != 0 {
                    assert(10 * i32::MIN <= pick * secret <= 10 * i32::MAX) by (nonlinear_arith)
                        requires
                            1 <= pick < 10,
                            i32::MIN <= secret <= i32::MAX,
                    ;
                    let product: i64 = pick as i64 * secret as i64;
                    if i32::MIN as i64 <= product && product <= i32::MAX as i64 {
                        Ok(Condition::HasMultiple(product as i32))
                    } else {
                        Err(InvariantViolation)
                    }
                } else {
                    Err(InvariantViolation)
                }
            },
            Condition::IsSquare(_) => Ok(Condition::IsSquare(is_square(secret))),
            Condition::IsCube(_) => Ok(Condition::IsCube(is_cube(secret))),
            Condition::IsPalindrome(_) => Ok(
                Condition::IsPalindrome(reads_same_reversed(&digits(secret))),
            ),
            Condition::DoesntContain(_) => Ok(Condition::DoesntContain(absent_digits(&digits(secret)))),
            Condition::ContainsDigitAlliteration(_) => Ok(
                Condition::ContainsDigitAlliteration(has_adjacent_pair(&digits(secret))),
            ),
        };
        proof {
            if r is Ok {
                lemma_instance_holds(*self, secret as int, pick as int, r->Ok_0);
            }
        }
        r
    }

    /// Whether `as_valid` can be asked for an instance of this template for
    /// `secret`.
    pub fn can_be_instantiated(&self, secret: i32) -> (yes: bool)
        ensures
            yes == can_instantiate(*self, secret as int),
    {
        match self {
            Condition::LargerThan(_) => secret > 0,
            Condition::SmallerThan(_) => secret <= i32::MAX - 200,
            Condition::HasFactor(_) => secret >= 1,
            Condition::HasMultiple(_) => secret != 0 && i32::MIN / 9 <= secret && secret
                <= i32::MAX / 9,
            _ => true,
        }
    }

    /// A concrete condition of this template's kind that `num` meets, with a
    /// random choice wherever the kind leaves one.
    pub fn as_valid(&self, num: i32) -> (c: Condition)
        requires
            can_instantiate(*self, num as int),
        ensures
            is_some_instance(*self, num as int, c),
            holds(c, num as int),
            well_formed(c),
    {
        let mut rng = rand::thread_rng();
        let pick: i32 = match self {
            Condition::LargerThan(_) => draw_in_range(&mut rng, 0, num),
            Condition::SmallerThan(_) => num + draw_in_range(&mut rng, 1, 201),
            Condition::ContainsDigit(_) => {
                let own = digits(num);
                let drawn = draw_member(&mut rng, &own).unwrap();
                proof {
                    let i = choose|i: int| 0 <= i < own@.len() && own@[i] == drawn;
                    assert(as_ints(own@)[i] == drawn as int);
                }
                drawn
            },
            Condition::HasFactor(_) => {
                let all = divisors(num);
                proof {
                    lemma_divisors_complete(num as int);
                }
                let drawn = draw_member(&mut rng, &all).unwrap();
                proof {
                    let i = choose|i: int| 0 <= i < all@.len() && all@[i] == drawn;
                    assert(as_ints(all@)[i] == drawn as int);
                }
                drawn
            },
            Condition::HasMultiple(_) => {
                let factor = draw_in_range(&mut rng, 1, 10);
                assert(i32::MIN <= factor * num <= i32::MAX) by (nonlinear_arith)
                    requires
                        1 <= factor < 10,
                        i32::MIN <= 9 * num <= i32::MAX,
                ;
                factor
            },
            _ => 0,
        };
        let made = self.instantiate(num, pick);
        made.unwrap()
    }
}

} // verus!
