//! Addition over every pair of variants. Cells whose result is exact are
//! computed here; a cell that needs binary64 arithmetic returns the
//! operation to carry out, and its result is then brought to normal form
//! with `Number::new_real` or `Number::new_complex`.
use vstd::prelude::*;
use crate::number::{rational_of, Number, Rational};
use crate::ratio::{add_fractions, canonical, in_i64, lcm, sum_fits, sum_numer};
use crate::gcd::{abs, gcd, gcd_u64};

verus! {

/// A binary64 operand: a value by its bits, an integer converted with
/// `as f64`, or a fraction converted as `numer as f64 / denom as f64`.
#[derive(Clone, Copy, Debug, PartialEq, Eq, Structural)]
pub enum Scalar {
    Float(u64),
    Int(i64),
    Ratio(Rational),
}

/// A binary64 computation on one or two operands, left to right.
#[derive(Clone, Copy, Debug, PartialEq, Eq, Structural)]
pub enum FloatOp {
    Value(Scalar),
    Plus(Scalar, Scalar),
    Times(Scalar, Scalar),
}

/// The outcome of an addition: an exact number, or the binary64 work that
/// gives the real part (and the imaginary part) of the result.
#[derive(Clone, Copy, Debug, PartialEq, Eq, Structural)]
pub enum Sum {
    Exact(Number),
    Real(FloatOp),
    Complex(FloatOp, FloatOp),
}

/// `a + q` for an integer and a fraction: `(a * denom + numer) / denom`,
/// `Undefined` when the numerator does not fit.
pub open spec fn integer_plus_ratio(a: i64, q: Rational) -> Number {
    if in_i64(a * q.denom) && in_i64(a * q.denom + q.numer) {
        rational_of(a * q.denom + q.numer, q.denom as int)
    } else {
        Number::Undefined
    }
}

/// `p + q` for two fractions, through their common denominator; `Undefined`
/// when an intermediate value does not fit.
pub open spec fn ratio_plus_ratio(p: Rational, q: Rational) -> Number {
    let (pn, pd, qn, qd) = (p.numer as int, p.denom as int, q.numer as int, q.denom as int);
    if sum_fits(pn, pd, qn, qd) {
        let c = canonical(sum_numer(pn, pd, qn, qd), lcm(pd, qd));
        rational_of(c.0, c.1)
    } else {
        Number::Undefined
    }
}

/// The addition table. Several cells that mix an exact or real left operand
/// with a real or complex right operand multiply where a sum would be
/// expected; the table keeps them so.
pub open spec fn sum_of(a: Number, b: Number) -> Sum {
    match (a, b) {
        (Number::Undefined, _) => Sum::Exact(Number::Undefined),
        (_, Number::Undefined) => Sum::Exact(Number::Undefined),
        (Number::Integer(x), Number::Integer(y)) => Sum::Exact(
            if in_i64(x + y) { Number::Integer((x + y) as i64) } else { Number::Undefined },
        ),
        (Number::Integer(x), Number::Rational(q)) => Sum::Exact(integer_plus_ratio(x, q)),
        (Number::Integer(x), Number::Real(r)) => Sum::Real(FloatOp::Times(Scalar::Float(r), Scalar::Int(x))),
        (Number::Integer(x), Number::Complex(re, im)) => Sum::Complex(
            FloatOp::Times(Scalar::Int(x), Scalar::Float(re)),
            FloatOp::Value(Scalar::Float(im)),
        ),
        (Number::Rational(p), Number::Integer(y)) => Sum::Exact(integer_plus_ratio(y, p)),
        (Number::Rational(p), Number::Rational(q)) => Sum::Exact(ratio_plus_ratio(p, q)),
        (Number::Rational(p), Number::Real(r)) => Sum::Real(FloatOp::Plus(Scalar::Float(r), Scalar::Ratio(p))),
        (Number::Rational(p), Number::Complex(re, im)) => Sum::Complex(
            FloatOp::Times(Scalar::Ratio(p), Scalar::Float(re)),
            FloatOp::Value(Scalar::Float(im)),
        ),
        (Number::Real(x), Number::Integer(y)) => Sum::Real(FloatOp::Plus(Scalar::Float(x), Scalar::Int(y))),
        (Number::Real(x), Number::Rational(q)) => Sum::Real(FloatOp::Times(Scalar::Float(x), Scalar::Ratio(q))),
        (Number::Real(x), Number::Real(r)) => Sum::Real(FloatOp::Times(Scalar::Float(r), Scalar::Float(x))),
        (Number::Real(x), Number::Complex(re, im)) => Sum::Complex(
            FloatOp::Times(Scalar::Float(x), Scalar::Float(re)),
            FloatOp::Value(Scalar::Float(im)),
        ),
        (Number::Complex(x, y), Number::Integer(i)) => Sum::Complex(
            FloatOp::Plus(Scalar::Float(x), Scalar::Int(i)),
            FloatOp::Value(Scalar::Float(y)),
        ),
        (Number::Complex(x, y), Number::Rational(q)) => Sum::Complex(
            FloatOp::Plus(Scalar::Float(x), Scalar::Ratio(q)),
            FloatOp::Value(Scalar::Float(y)),
        ),
        (Number::Complex(x, y), Number::Real(r)) => Sum::Complex(
            FloatOp::Plus(Scalar::Float(x), Scalar::Float(r)),
            FloatOp::Value(Scalar::Float(y)),
        ),
        (Number::Complex(x, y), Number::Complex(re, im)) => Sum::Complex(
            FloatOp::Plus(Scalar::Float(x), Scalar::Float(re)),
            FloatOp::Plus(Scalar::Float(y), Scalar::Float(im)),
        ),
    }
}

/// An integer plus a fraction with a positive denominator.
fn add_integer_ratio(a: i64, q: Rational) -> (r: Number)
    requires
        q.denom > 0,
    ensures
        r == integer_plus_ratio(a, q),
        r.wf(),
{
    match a.checked_mul(q.denom) {
        Some(m) => match m.checked_add(q.numer) {
            Some(t) => Number::new_rational(t, q.denom),
            None => Number::Undefined,
        },
        None => Number::Undefined,
    }
}

/// Two fractions with positive denominators added exactly.
fn add_ratios(p: Rational, q: Rational) -> (r: Number)
    requires
        p.denom > 0,
        q.denom > 0,
    ensures
        r == ratio_plus_ratio(p, q),
        r.wf(),
{
    let ghost (pd, qd) = (p.denom as int, q.denom as int);
    let pdu: u64 = p.denom as u64;
    let qdu: u64 = q.denom as u64;
    let g = gcd_u64(pdu, qdu);
    proof {
        crate::gcd::lemma_gcd_divides(abs(pd), abs(qd));
    }
    let mu: u64 = match pdu.checked_mul(qdu / g) {
        Some(v) => v,
        None => return Number::Undefined,
    };
    assert(mu as int == lcm(pd, qd));
    if mu > i64::MAX as u64 {
        return Number::Undefined;
    }
    assert(mu / pdu <= mu && mu / qdu <= mu) by (nonlinear_arith)
        requires
            pdu > 0,
            qdu > 0,
    ;
    let left = match p.numer.checked_mul((mu / pdu) as i64) {
        Some(v) => v,
        None => return Number::Undefined,
    };
    let right = match q.numer.checked_mul((mu / qdu) as i64) {
        Some(v) => v,
        None => return Number::Undefined,
    };
    match left.checked_add(right) {
        Some(_) => {
            let (x, y) = add_fractions(p.numer, p.denom, q.numer, q.denom);
            Number::new_rational(x, y)
        },
        None => Number::Undefined,
    }
}

impl Number {
    /// Adds two numbers by the addition table.
    pub fn sum(self, number: Number) -> (r: Sum)
        requires
            self.wf(),
            number.wf(),
        ensures
            r == sum_of(self, number),
            r matches Sum::Exact(n) ==> n.wf(),
    {
        match (self, number) {
            (Number::Undefined, _) => Sum::Exact(Number::Undefined),
            (_, Number::Undefined) => Sum::Exact(Number::Undefined),
            (Number::Integer(x), Number::Integer(y)) => Sum::Exact(
                match x.checked_add(y) {
                    Some(s) => Number::Integer(s),
                    None => Number::Undefined,
                },
            ),
            (Number::Integer(x), Number::Rational(q)) => Sum::Exact(add_integer_ratio(x, q)),
            (Number::Integer(x), Number::Real(r)) => Sum::Real(FloatOp::Times(Scalar::Float(r), Scalar::Int(x))),
            (Number::Integer(x), Number::Complex(re, im)) => Sum::Complex(
                FloatOp::Times(Scalar::Int(x), Scalar::Float(re)),
                FloatOp::Value(Scalar::Float(im)),
            ),
            (Number::Rational(p), Number::Integer(y)) => Sum::Exact(add_integer_ratio(y, p)),
            (Number::Rational(p), Number::Rational(q)) => Sum::Exact(add_ratios(p, q)),
            (Number::Rational(p), Number::Real(r)) => Sum::Real(FloatOp::Plus(Scalar::Float(r), Scalar::Ratio(p))),
            (Number::Rational(p), Number::Complex(re, im)) => Sum::Complex(
                FloatOp::Times(Scalar::Ratio(p), Scalar::Float(re)),
                FloatOp::Value(Scalar::Float(im)),
            ),
            (Number::Real(x), Number::Integer(y)) => Sum::Real(FloatOp::Plus(Scalar::Float(x), Scalar::Int(y))),
            (Number::Real(x), Number::Rational(q)) => Sum::Real(FloatOp::Times(Scalar::Float(x), Scalar::Ratio(q))),
            (Number::Real(x), Number::Real(r)) => Sum::Real(FloatOp::Times(Scalar::Float(r), Scalar::Float(x))),
            (Number::Real(x), Number::Complex(re, im)) => Sum::Complex(
                FloatOp::Times(Scalar::Float(x), Scalar::Float(re)),
                FloatOp::Value(Scalar::Float(im)),
            ),
            (Number::Complex(x, y), Number::Integer(i)) => Sum::Complex(
                FloatOp::Plus(Scalar::Float(x), Scalar::Int(i)),
                FloatOp::Value(Scalar::Float(y)),
            ),
            (Number::Complex(x, y), Number::Rational(q)) => Sum::Complex(
                FloatOp::Plus(Scalar::Float(x), Scalar::Ratio(q)),
                FloatOp::Value(Scalar::Float(y)),
            ),
            (Number::Complex(x, y), Number::Real(r)) => Sum::Complex(
                FloatOp::Plus(Scalar::Float(x), Scalar::Float(r)),
                FloatOp::Value(Scalar::Float(y)),
            ),
            (Number::Complex(x, y), Number::Complex(re, im)) => Sum::Complex(
                FloatOp::Plus(Scalar::Float(x), Scalar::Float(re)),
                FloatOp::Plus(Scalar::Float(y), Scalar::Float(im)),
            ),
        }
    }
}

} // verus!
