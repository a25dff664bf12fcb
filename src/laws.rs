//! Laws of the constructors and of addition, stated over their specifications.
use vstd::prelude::*;
use vstd::arithmetic::div_mod::{lemma_fundamental_div_mod, lemma_fundamental_div_mod_converse};
use crate::gcd::{abs, gcd, lemma_div_mod_scale, lemma_exact_quotient, lemma_gcd_divides, lemma_gcd_scale};
use crate::number::{rational_of, trunc_div, Number, Rational};
use crate::float::{complex_of, real_of, is_whole, whole_value};
use crate::ratio::{canonical, in_i64, lcm, sum_fits, sum_numer};
use crate::sum::{ratio_plus_ratio, sum_of, Sum};

verus! {

/// A fraction in lowest terms and any multiple of it, `k*n / k*d` with
/// `k != 0`, normalise to the same number.
pub proof fn lemma_rational_scaling(k: int, n: int, d: int)
    requires
        k != 0,
        d != 0,
        gcd(abs(n), abs(d)) == 1,
        in_i64(n),
        in_i64(d),
        in_i64(k * n),
        in_i64(k * d),
    ensures
        rational_of(k * n, k * d) == rational_of(n, d),
{
    let (ak, an, ad) = (abs(k), abs(n), abs(d));
    assert(abs(k * n) == ak * an && abs(k * d) == ak * ad) by (nonlinear_arith)
        requires
            ak == abs(k),
            an == abs(n),
            ad == abs(d),
    ;
    assert(ak > 0 && ad > 0);
    lemma_div_mod_scale(ak, an, ad);
    assert(k * d != 0) by (nonlinear_arith) requires k != 0, d != 0;
    let r = an % ad;
    assert((ak * r == 0) == (r == 0)) by (nonlinear_arith)
        requires
            ak > 0,
    ;
    if an % ad == 0 {
        if n != 0 {
            assert(((k * n < 0) == (k * d < 0)) == ((n < 0) == (d < 0))) by (nonlinear_arith)
                requires
                    k != 0,
                    n != 0,
                    d != 0,
            ;
        } else {
            assert(k * n == 0) by (nonlinear_arith) requires n == 0;
        }
        assert(trunc_div(k * n, k * d) == trunc_div(n, d));
    } else {
        lemma_gcd_scale(ak, an, ad);
        assert(gcd(ak * an, ak * ad) == ak) by (nonlinear_arith)
            requires
                gcd(ak * an, ak * ad) == ak * gcd(an, ad),
                gcd(an, ad) == 1,
        ;
        let s: int = if k > 0 { 1 } else { -1 };
        assert(ak == s * k) by {
            if k > 0 {
                assert(s * k == k);
            } else {
                assert(s * k == -k);
            }
        }
        assert(k * n == (ak as int) * (s * n) + 0 && k * d == (ak as int) * (s * d) + 0) by (nonlinear_arith)
            requires
                ak == s * k,
                s == 1 || s == -1,
        ;
        lemma_fundamental_div_mod_converse(k * n, ak as int, s * n, 0);
        lemma_fundamental_div_mod_converse(k * d, ak as int, s * d, 0);
        lemma_fundamental_div_mod_converse(n, 1, n, 0);
        lemma_fundamental_div_mod_converse(d, 1, d, 0);
        assert((k * d < 0) == (s * d < 0)) by (nonlinear_arith)
            requires
                ak == s * k,
                ak > 0,
                s == 1 || s == -1,
        ;
        assert(gcd(abs(k * n), abs(k * d)) == ak);
        assert(gcd(abs(n), abs(d)) == 1);
        if k > 0 {
            assert(s * n == n && s * d == d);
        } else {
            assert(s * n == -n && s * d == -d);
        }
        assert(canonical(k * n, k * d) == canonical(n, d));
    }
}

/// A whole integer given as a fraction over one is that integer.
pub proof fn lemma_rational_over_one(i: int)
    requires
        in_i64(i),
    ensures
        rational_of(i, 1) == Number::Integer(i as i64),
{
    assert(abs(i) % 1 == 0);
    assert(abs(i) / 1 == abs(i));
}

/// A real value with no fractional part that fits in an `i64` is that
/// integer.
pub proof fn lemma_real_whole(b: u64)
    requires
        is_whole(b),
        in_i64(whole_value(b)),
    ensures
        real_of(b) == Number::Integer(whole_value(b) as i64),
{
}

/// A complex value whose imaginary part is zero, of either sign, is the real
/// value of its real part.
pub proof fn lemma_complex_zero_imaginary(x: u64)
    ensures
        complex_of(x, 0u64) == real_of(x),
        complex_of(x, 0x8000_0000_0000_0000u64) == real_of(x),
{
    assert((0u64 >> 52u64) & 0x7ffu64 == 0 && 0u64 & 0xf_ffff_ffff_ffffu64 == 0) by (bit_vector);
    assert((0x8000_0000_0000_0000u64 >> 52u64) & 0x7ffu64 == 0
        && 0x8000_0000_0000_0000u64 & 0xf_ffff_ffff_ffffu64 == 0) by (bit_vector);
}

/// `Undefined` absorbs: added to anything, on either side, it gives
/// `Undefined`.
pub proof fn lemma_undefined_absorbs(v: Number)
    ensures
        sum_of(Number::Undefined, v) == Sum::Exact(Number::Undefined),
        sum_of(v, Number::Undefined) == Sum::Exact(Number::Undefined),
{
}


/// The lowest terms of `n / d` have the value `n / d`.
pub proof fn lemma_canonical_value(n: int, d: int)
    requires
        d != 0,
    ensures
        canonical(n, d).0 * d == canonical(n, d).1 * n,
        canonical(n, d).1 > 0,
{
    let g = gcd(abs(n), abs(d));
    lemma_gcd_divides(abs(n), abs(d));
    lemma_exact_quotient(n, g);
    lemma_exact_quotient(d, g);
    let a = n / (g as int);
    let b = d / (g as int);
    let (x, y) = canonical(n, d);
    assert(x * d == y * n && y > 0) by (nonlinear_arith)
        requires
            n == g * a,
            d == g * b,
            g > 0,
            d != 0,
            (d < 0 ==> x == -a && y == -b),
            (d > 0 ==> x == a && y == b),
    ;
}

/// `new_rational(n, d)` keeps the value `n / d` whenever it is not
/// `Undefined`.
pub proof fn lemma_rational_of_value(n: int, d: int)
    requires
        d != 0,
    ensures
        rational_of(n, d) matches Number::Integer(i) ==> i * d == n,
        rational_of(n, d) matches Number::Rational(q) ==> q.numer * d == q.denom * n,
{
    if abs(n) % abs(d) == 0 {
        lemma_fundamental_div_mod(abs(n) as int, abs(d) as int);
        let m = abs(n) / abs(d);
        let t = trunc_div(n, d);
        assert(t * d == n) by (nonlinear_arith)
            requires
                abs(n) == abs(d) * m,
                abs(n) == (if n < 0 { -n } else { n }),
                abs(d) == (if d < 0 { -d } else { d }),
                t == (if (n < 0) == (d < 0) { m as int } else { -m }),
        ;
    } else {
        lemma_canonical_value(n, d);
    }
}

/// Adding two fractions with positive denominators gives, unless it is
/// `Undefined`, exactly `p.numer / p.denom + q.numer / q.denom`.
pub proof fn lemma_ratio_sum_value(p: Rational, q: Rational)
    requires
        p.denom > 0,
        q.denom > 0,
    ensures
        ratio_plus_ratio(p, q) matches Number::Integer(i)
            ==> i * (p.denom * q.denom) == p.numer * q.denom + q.numer * p.denom,
        ratio_plus_ratio(p, q) matches Number::Rational(r)
            ==> r.numer * (p.denom * q.denom) == r.denom * (p.numer * q.denom + q.numer * p.denom),
{
    let (pn, pd, qn, qd) = (p.numer as int, p.denom as int, q.numer as int, q.denom as int);
    if sum_fits(pn, pd, qn, qd) {
        let g = gcd(abs(pd), abs(qd)) as int;
        lemma_gcd_divides(abs(pd), abs(qd));
        lemma_fundamental_div_mod(pd, g);
        lemma_fundamental_div_mod(qd, g);
        let a = pd / g;
        let b = qd / g;
        let l = lcm(pd, qd);
        assert(l == pd * b && l == qd * a + 0 && l == pd * b + 0) by (nonlinear_arith)
            requires
                l == pd * b,
                pd == g * a,
                qd == g * b,
        ;
        assert(pd * b > 0) by (nonlinear_arith)
            requires
                pd > 0,
                qd > 0,
                qd == g * b,
                g > 0,
        ;
        lemma_fundamental_div_mod_converse(l, pd, b, 0);
        lemma_fundamental_div_mod_converse(l, qd, a, 0);
        let s = pn * qd + qn * pd;
        let num = sum_numer(pn, pd, qn, qd);
        assert(num == pn * b + qn * a);
        assert(s == g * num) by (nonlinear_arith)
            requires
                num == pn * b + qn * a,
                pd == g * a,
                qd == g * b,
                s == pn * qd + qn * pd,
        ;
        assert(pd * qd == g * l) by (nonlinear_arith)
            requires
                l == pd * b,
                qd == g * b,
        ;
        assert(num * (pd * qd) == l * s) by (nonlinear_arith)
            requires
                s == g * num,
                pd * qd == g * l,
        ;
        lemma_canonical_value(num, l);
        let (x, y) = canonical(num, l);
        lemma_rational_of_value(x, y);
        match rational_of(x, y) {
            Number::Integer(i) => {
                assert(i * (pd * qd) == s) by (nonlinear_arith)
                    requires
                        i * y == x,
                        x * l == y * num,
                        y > 0,
                        l > 0,
                        num * (pd * qd) == l * s,
                ;
            },
            Number::Rational(r) => {
                let (rn, rd) = (r.numer as int, r.denom as int);
                assert(rn * (pd * qd) == rd * s) by (nonlinear_arith)
                    requires
                        rn * y == rd * x,
                        x * l == y * num,
                        y > 0,
                        l > 0,
                        num * (pd * qd) == l * s,
                ;
            },
            _ => {},
        }
    }
}

} // verus!
