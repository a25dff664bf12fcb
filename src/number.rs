//! The `Number` type, its well-formedness and its exact constructors.
use vstd::prelude::*;
use crate::gcd::{abs, gcd, gcd_u64, lemma_exact_quotient, lemma_gcd_divides, lemma_gcd_quotients_coprime};
use crate::ratio::{canonical, canonical_fits, in_i64, reduce};
use crate::float::{is_whole, is_zero};

verus! {

/// A fraction in lowest terms. Inside a well-formed `Number` the denominator
/// is at least 2 and shares no factor with the numerator.
#[derive(Clone, Copy, Debug, PartialEq, Eq, Structural)]
pub struct Rational {
    pub numer: i64,
    pub denom: i64,
}

/// A value of the tower. `Real` and `Complex` hold IEEE-754 binary64 values
/// by their bit patterns.
#[derive(Clone, Copy, Debug, PartialEq, Eq, Structural)]
pub enum Number {
    Undefined,
    Integer(i64),
    Rational(Rational),
    Real(u64),
    Complex(u64, u64),
}

/// Rust's truncating quotient `n / d`, for `d != 0`.
pub open spec fn trunc_div(n: int, d: int) -> int {
    let q = (abs(n) / abs(d)) as int;
    if (n < 0) == (d < 0) {
        q
    } else {
        -q
    }
}

/// What `new_rational(n, d)` gives: `Undefined` for a zero denominator or a
/// result that does not fit, an `Integer` when `d` divides `n`, and otherwise
/// the fraction in lowest terms with a positive denominator.
pub open spec fn rational_of(n: int, d: int) -> Number {
    if d == 0 {
        Number::Undefined
    } else if abs(n) % abs(d) == 0 {
        if in_i64(trunc_div(n, d)) {
            Number::Integer(trunc_div(n, d) as i64)
        } else {
            Number::Undefined
        }
    } else if canonical_fits(n, d) {
        Number::Rational(Rational { numer: canonical(n, d).0 as i64, denom: canonical(n, d).1 as i64 })
    } else {
        Number::Undefined
    }
}

/// The magnitude of an `i64`, which always fits in a `u64`.
fn magnitude(x: i64) -> (r: u64)
    ensures
        r as nat == abs(x as int),
{
    if x == i64::MIN {
        0x8000_0000_0000_0000u64
    } else if x < 0 {
        (-x) as u64
    } else {
        x as u64
    }
}

/// Lowest terms of a fraction with a nonzero denominator that does not divide
/// the numerator: the denominator is at least 2 and coprime to the numerator.
proof fn lemma_canonical_shape(n: int, d: int)
    requires
        d != 0,
        abs(n) % abs(d) != 0,
    ensures
        canonical(n, d).1 >= 2,
        gcd(abs(canonical(n, d).0), canonical(n, d).1 as nat) == 1,
{
    let an = abs(n);
    let ad = abs(d);
    let g = gcd(an, ad);
    lemma_gcd_divides(an, ad);
    lemma_gcd_quotients_coprime(an, ad);
    lemma_exact_quotient(n, g);
    lemma_exact_quotient(d, g);
    lemma_exact_quotient(ad as int, g);
    let y = ad / g;
    assert(y >= 1 && (y == 1 ==> ad == g)) by (nonlinear_arith)
        requires
            ad == g * y,
            ad > 0,
            g > 0,
    ;
    if y == 1 {
        assert(an % ad == 0);
    }
}

impl Number {
    /// Whether the value is in the form the constructors produce.
    pub open spec fn wf(self) -> bool {
        match self {
            Number::Rational(q) => q.denom >= 2 && gcd(abs(q.numer as int), q.denom as nat) == 1,
            Number::Real(b) => !is_whole(b),
            Number::Complex(_, im) => !is_zero(im),
            _ => true,
        }
    }

    /// Tests `wf`: whether the value is in the form the constructors produce.
    pub fn is_well_formed(&self) -> (r: bool)
        ensures
            r == self.wf(),
    {
        match *self {
            Number::Rational(q) => q.denom >= 2 && gcd_u64(magnitude(q.numer), q.denom as u64) == 1,
            Number::Real(b) => Number::new_real(b) == Number::Real(b),
            Number::Complex(re, im) => Number::new_complex(re, im) == Number::Complex(re, im),
            _ => true,
        }
    }

    /// An exact whole number.
    pub fn new_integer(value: i64) -> (r: Number)
        ensures
            r == Number::Integer(value),
    {
        Number::Integer(value)
    }

    /// The fraction `nominator / denominator` in its simplest form. A zero
    /// denominator, or a result that does not fit in 64 bits, gives
    /// `Undefined`.
    pub fn new_rational(nominator: i64, denominator: i64) -> (r: Number)
        ensures
            r == rational_of(nominator as int, denominator as int),
            r.wf(),
    {
        if denominator == 0 {
            return Number::Undefined;
        }
        let an = magnitude(nominator);
        let ad = magnitude(denominator);
        if an % ad == 0 {
            let q: u64 = an / ad;
            if (nominator < 0) == (denominator < 0) {
                if q <= i64::MAX as u64 {
                    Number::Integer(q as i64)
                } else {
                    Number::Undefined
                }
            } else if q == 0x8000_0000_0000_0000u64 {
                Number::Integer(i64::MIN)
            } else {
                assert(q <= 0x8000_0000_0000_0000u64) by (nonlinear_arith)
                    requires
                        q == an / ad,
                        an <= 0x8000_0000_0000_0000u64,
                        ad >= 1,
                ;
                Number::Integer(-(q as i64))
            }
        } else {
            proof {
                lemma_canonical_shape(nominator as int, denominator as int);
            }
            let g = gcd_u64(an, ad);
            let top: u64 = 0x8000_0000_0000_0000u64;
            proof {
                lemma_gcd_divides(an as nat, ad as nat);
                lemma_exact_quotient(nominator as int, g as nat);
                lemma_exact_quotient(denominator as int, g as nat);
            }
            if denominator < 0 && ((nominator < 0 && an / g == top) || ad / g == top) {
                Number::Undefined
            } else {
                let (x, y) = reduce(nominator, denominator);
                Number::Rational(Rational { numer: x, denom: y })
            }
        }
    }
}

} // verus!
