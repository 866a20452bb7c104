//! Divisibility of integers of either sign, and the list of a number's
//! divisors.

use vstd::prelude::*;
use vstd::arithmetic::div_mod::lemma_fundamental_div_mod;
use vstd::arithmetic::div_mod::lemma_mod_multiples_basic;
use crate::digits::as_ints;
use crate::digits::magnitude;
use crate::digits::magnitude_of;

verus! {

/// `n` is a whole multiple of `d`. Nothing is a multiple of zero.
pub open spec fn divides(d: int, n: int) -> bool {
    d != 0 && n % d == 0
}

/// The test that `divides` makes of a candidate divisor of `n`.
pub open spec fn dividing(n: int) -> spec_fn(int) -> bool {
    |d: int| divides(d, n)
}

/// The numbers 1 to `k` in rising order.
pub open spec fn one_to(k: int) -> Seq<int> {
    Seq::new(
        if k > 0 {
            k as nat
        } else {
            0
        },
        |i: int| i + 1,
    )
}

/// The positive divisors of `n` up to `n` itself, in rising order. A number
/// below 1 has none.
pub open spec fn divisors_of(n: int) -> Seq<int> {
    one_to(n).filter(dividing(n))
}

/// Divisibility does not depend on the signs of the two numbers.
pub proof fn lemma_divides_by_magnitude(d: int, n: int)
    ensures
        divides(d, n) <==> divides(magnitude(d) as int, magnitude(n) as int),
{
    if d != 0 {
        let md = magnitude(d) as int;
        let mn = magnitude(n) as int;
        if n % d == 0 {
            let q = n / d;
            assert(n == d * q) by (nonlinear_arith)
                requires
                    d != 0,
                    n % d == 0,
                    q == n / d,
            ;
            let mq = magnitude(q) as int;
            assert(mn == mq * md) by (nonlinear_arith)
                requires
                    n == d * q,
                    md == d || md == -d,
                    mn == n || mn == -n,
                    mq == q || mq == -q,
                    md >= 0,
                    mn >= 0,
                    mq >= 0,
            ;
            lemma_mod_multiples_basic(mq, md);
        }
        if mn % md == 0 {
            lemma_fundamental_div_mod(mn, md);
            let k = mn / md;
            let q = if (n < 0) == (d < 0) {
                k
            } else {
                -k
            };
            assert(n == d * q) by (nonlinear_arith)
                requires
                    mn == md * k,
                    md == d || md == -d,
                    mn == n || mn == -n,
                    (md == d) == (d >= 0),
                    (mn == n) == (n >= 0),
                    q == if (n < 0) == (d < 0) {
                        k
                    } else {
                        -k
                    },
            ;
            assert(n % d == 0) by (nonlinear_arith)
                requires
                    n == d * q,
                    d != 0,
            ;
        }
    }
}

/// Every listed divisor divides `n`, lies between 1 and `n`, and every such
/// number is listed. For `n` of at least 1 the list starts with 1, so it is
/// not empty.
pub proof fn lemma_divisors_complete(n: int)
    ensures
        forall|i: int|
            0 <= i < divisors_of(n).len() ==> {
                let d = #[trigger] divisors_of(n)[i];
                1 <= d <= n && divides(d, n)
            },
        forall|d: int| 1 <= d <= n && divides(d, n) ==> divisors_of(n).contains(d),
        n >= 1 ==> divisors_of(n).len() >= 1,
{
    let all = one_to(n);
    let pred = dividing(n);
    assert forall|i: int| 0 <= i < all.filter(pred).len() implies {
        let d = #[trigger] all.filter(pred)[i];
        1 <= d <= n && divides(d, n)
    } by {
        let d = all.filter(pred)[i];
        all.lemma_filter_pred(pred, i);
        all.lemma_filter_contains_rev(pred, d);
    }
    assert forall|d: int| 1 <= d <= n && divides(d, n) implies all.filter(pred).contains(d) by {
        all.lemma_filter_contains(pred, d - 1);
    }
    if n >= 1 {
        assert(divides(1, n));
    }
}

/// Whether `num` is a whole multiple of `by`.
pub fn is_multiple(num: i32, by: i32) -> (yes: bool)
    ensures
        yes == divides(by as int, num as int),
{
    if by == 0 {
        false
    } else {
        proof {
            lemma_divides_by_magnitude(by as int, num as int);
        }
        magnitude_of(num) % magnitude_of(by) == 0
    }
}

/// The positive divisors of `num` in rising order; none for a number below 1.
pub fn divisors(num: i32) -> (out: Vec<i32>)
    ensures
        as_ints(out@) == divisors_of(num as int),
{
    let mut out: Vec<i32> = Vec::new();
    let mut d: i32 = 0;
    proof {
        reveal(Seq::filter);
    }
    while d < num
        invariant
            0 <= d,
            d <= num || d == 0,
            as_ints(out@) == one_to(d as int).filter(dividing(num as int)),
        decreases num - d,
    {
        d += 1;
        proof {
            assert(one_to(d as int) =~= one_to(d - 1).push(d as int));
            one_to(d - 1).lemma_filter_push(d as int, dividing(num as int));
        }
        if num % d == 0 {
            out.push(d);
        }
    }
    out
}

} // verus!
