//! Exact fractions of 64-bit integers. The reduction and the sum of two
//! fractions are done by `num_rational`; this module states what they
//! return and when they can be called without overflow.
use vstd::prelude::*;
use num_rational::Rational64;
use crate::gcd::{abs, gcd};

verus! {

/// Whether an integer fits in an `i64`.
pub open spec fn in_i64(x: int) -> bool {
    i64::MIN <= x <= i64::MAX
}

/// Lowest terms of `n / d` with a positive denominator.
pub open spec fn canonical(n: int, d: int) -> (int, int) {
    let g = gcd(abs(n), abs(d)) as int;
    if d < 0 {
        (-(n / g), -(d / g))
    } else {
        (n / g, d / g)
    }
}

/// Whether both parts of the lowest terms of `n / d` fit in an `i64`.
pub open spec fn canonical_fits(n: int, d: int) -> bool {
    in_i64(canonical(n, d).0) && in_i64(canonical(n, d).1)
}

/// The least common multiple of two positive denominators, written as
/// `num_integer` computes it: `q * (d / gcd(q, d))`.
pub open spec fn lcm(q: int, d: int) -> int {
    q * (d / (gcd(abs(q), abs(d)) as int))
}

/// The numerator of `p/q + n/d` over the common denominator `lcm(q, d)`.
pub open spec fn sum_numer(p: int, q: int, n: int, d: int) -> int {
    p * (lcm(q, d) / q) + n * (lcm(q, d) / d)
}

/// Whether every intermediate value of the sum `p/q + n/d` fits in an `i64`.
pub open spec fn sum_fits(p: int, q: int, n: int, d: int) -> bool {
    &&& in_i64(lcm(q, d))
    &&& in_i64(p * (lcm(q, d) / q))
    &&& in_i64(n * (lcm(q, d) / d))
    &&& in_i64(sum_numer(p, q, n, d))
}

/// Relies on `Ratio::new` of num-rational, which divides both parts by their
/// gcd and then negates both when the denominator is negative. It panics on a
/// zero denominator, and the negation overflows exactly when a reduced part
/// is `i64::MIN`, that is when the lowest terms do not fit.
#[verifier::external_body]
pub(crate) fn reduce(n: i64, d: i64) -> (r: (i64, i64))
    requires
        d != 0,
        canonical_fits(n as int, d as int),
    ensures
        r.0 as int == canonical(n as int, d as int).0,
        r.1 as int == canonical(n as int, d as int).1,
{
    let q = Rational64::new(n, d);
    (*q.numer(), *q.denom())
}

/// Relies on `Add` for `Ratio` of num-rational. With equal denominators it
/// reduces `(p + n) / d`; otherwise it takes `lcm = q.lcm(&d)`, scales both
/// numerators to it and reduces their sum over it. With `q == d` the lcm is
/// `q` and both formulas agree, so one statement covers both paths.
#[verifier::external_body]
pub(crate) fn add_fractions(p: i64, q: i64, n: i64, d: i64) -> (r: (i64, i64))
    requires
        q > 0,
        d > 0,
        sum_fits(p as int, q as int, n as int, d as int),
    ensures
        r.0 as int == canonical(sum_numer(p as int, q as int, n as int, d as int), lcm(q as int, d as int)).0,
        r.1 as int == canonical(sum_numer(p as int, q as int, n as int, d as int), lcm(q as int, d as int)).1,
{
    let s = Rational64::new_raw(p, q) + Rational64::new_raw(n, d);
    (*s.numer(), *s.denom())
}

} // verus!
