//! Greatest common divisors: the definition the rational arithmetic is
//! stated over, the facts about it that the proofs use, and an executable
//! version for magnitudes.
use vstd::prelude::*;
use vstd::arithmetic::div_mod::{lemma_fundamental_div_mod, lemma_fundamental_div_mod_converse};

verus! {

/// Euclid's greatest common divisor on naturals; `gcd(a, 0) == a`.
pub open spec fn gcd(a: nat, b: nat) -> nat
    decreases b,
{
    if b == 0 {
        a
    } else {
        gcd(b, a % b)
    }
}

/// Absolute value of an integer, as a natural.
pub open spec fn abs(x: int) -> nat {
    if x < 0 {
        (-x) as nat
    } else {
        x as nat
    }
}

/// When `b` is positive the gcd is positive and divides both arguments.
pub proof fn lemma_gcd_divides(a: nat, b: nat)
    requires
        b > 0,
    ensures
        gcd(a, b) > 0,
        a % gcd(a, b) == 0,
        b % gcd(a, b) == 0,
    decreases b,
{
    let r = a % b;
    if r == 0 {
        assert(gcd(b, 0) == b);
        assert(gcd(a, b) == b);
        assert(b % b == 0) by (nonlinear_arith) requires b > 0;
    } else {
        lemma_gcd_divides(b, r);
        let g = gcd(b, r);
        assert(gcd(a, b) == g);
        lemma_fundamental_div_mod(a as int, b as int);
        lemma_fundamental_div_mod(b as int, g as int);
        lemma_fundamental_div_mod(r as int, g as int);
        let qb = b / g;
        let qr = r / g;
        assert(a == g * ((a / b) * qb + qr)) by (nonlinear_arith)
            requires
                a == b * (a / b) + r,
                b == g * qb,
                r == g * qr,
        ;
        assert(a % g == 0) by {
            let k = (a / b) * qb + qr;
            assert(0 <= k) by (nonlinear_arith)
                requires
                    a == g * k,
                    g > 0,
            ;
            lemma_fundamental_div_mod_converse(a as int, g as int, k as int, 0);
        }
    }
}

/// Division by a positive divisor of the magnitude is exact: the quotient
/// has the sign of `n` and a magnitude no larger than that of `n`.
pub proof fn lemma_exact_quotient(n: int, g: nat)
    requires
        g > 0,
        abs(n) % g == 0,
    ensures
        n / (g as int) == if n < 0 { -((abs(n) / g) as int) } else { (abs(n) / g) as int },
        n == (g as int) * (n / (g as int)),
        abs(n) / g <= abs(n),
{
    lemma_fundamental_div_mod(abs(n) as int, g as int);
    let m = (abs(n) / g) as int;
    let q: int = if n < 0 { -m } else { m };
    assert(n == q * g + 0 && m <= abs(n)) by (nonlinear_arith)
        requires
            abs(n) == g * m,
            abs(n) == (if n < 0 { -n } else { n }),
            q == (if n < 0 { -m } else { m }),
            g > 0,
            m >= 0,
    ;
    lemma_fundamental_div_mod_converse(n, g as int, q, 0);
}

/// Scaling both arguments scales the gcd.
pub proof fn lemma_gcd_scale(k: nat, a: nat, b: nat)
    requires
        k > 0,
    ensures
        gcd(k * a, k * b) == k * gcd(a, b),
    decreases b,
{
    if b == 0 {
        assert(k * b == 0) by (nonlinear_arith) requires b == 0;
    } else {
        assert(k * b > 0) by (nonlinear_arith) requires k > 0, b > 0;
        lemma_fundamental_div_mod(a as int, b as int);
        let q = a / b;
        let r = a % b;
        assert(k * a == (k * b) * q + k * r && 0 <= k * r < k * b) by (nonlinear_arith)
            requires
                a == b * q + r,
                0 <= r < b,
                k > 0,
        ;
        lemma_fundamental_div_mod_converse((k * a) as int, (k * b) as int, q as int, (k * r) as int);
        assert((k * a) % (k * b) == k * r);
        lemma_gcd_scale(k, b, r);
    }
}

/// Scaling dividend and divisor by the same positive factor keeps the
/// quotient and scales the remainder.
pub proof fn lemma_div_mod_scale(k: nat, a: nat, b: nat)
    requires
        k > 0,
        b > 0,
    ensures
        (k * a) / (k * b) == a / b,
        (k * a) % (k * b) == k * (a % b),
{
    assert(k * b > 0) by (nonlinear_arith) requires k > 0, b > 0;
    lemma_fundamental_div_mod(a as int, b as int);
    let q = a / b;
    let r = a % b;
    assert(k * a == (k * b) * q + k * r && 0 <= k * r < k * b) by (nonlinear_arith)
        requires
            a == b * q + r,
            0 <= r < b,
            k > 0,
    ;
    lemma_fundamental_div_mod_converse((k * a) as int, (k * b) as int, q as int, (k * r) as int);
}

/// Dividing both arguments by their gcd leaves coprime numbers.
pub proof fn lemma_gcd_quotients_coprime(a: nat, b: nat)
    requires
        b > 0,
    ensures
        gcd(a / gcd(a, b), b / gcd(a, b)) == 1,
{
    let g = gcd(a, b);
    lemma_gcd_divides(a, b);
    lemma_fundamental_div_mod(a as int, g as int);
    lemma_fundamental_div_mod(b as int, g as int);
    let x = a / g;
    let y = b / g;
    lemma_gcd_scale(g, x, y);
    assert(g * x == a && g * y == b);
    assert(g * gcd(x, y) == g);
    assert(gcd(x, y) == 1) by (nonlinear_arith)
        requires
            g * gcd(x, y) == g,
            g > 0,
    ;
}

/// The gcd of two machine magnitudes, by Euclid's algorithm.
pub fn gcd_u64(a: u64, b: u64) -> (r: u64)
    ensures
        r as nat == gcd(a as nat, b as nat),
{
    let mut x: u64 = a;
    let mut y: u64 = b;
    while y != 0
        invariant
            gcd(x as nat, y as nat) == gcd(a as nat, b as nat),
        decreases y,
    {
        let t: u64 = x % y;
        x = y;
        y = t;
    }
    x
}

} // verus!
