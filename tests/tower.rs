use numtower::{FloatOp, Number, Rational, Scalar, Sum};

fn scalar(s: Scalar) -> f64 {
    match s {
        Scalar::Float(b) => f64::from_bits(b),
        Scalar::Int(i) => i as f64,
        Scalar::Ratio(q) => q.numer as f64 / q.denom as f64,
    }
}

fn evaluate(op: FloatOp) -> f64 {
    match op {
        FloatOp::Value(a) => scalar(a),
        FloatOp::Plus(a, b) => scalar(a) + scalar(b),
        FloatOp::Times(a, b) => scalar(a) * scalar(b),
    }
}

fn add(a: Number, b: Number) -> Number {
    match a.sum(b) {
        Sum::Exact(n) => n,
        Sum::Real(op) => Number::new_real(evaluate(op).to_bits()),
        Sum::Complex(re, im) => Number::new_complex(evaluate(re).to_bits(), evaluate(im).to_bits()),
    }
}

fn real_num(x: f64) -> Number {
    Number::new_real(x.to_bits())
}

fn complex_num(re: f64, im: f64) -> Number {
    Number::new_complex(re.to_bits(), im.to_bits())
}

fn ratio(numer: i64, denom: i64) -> Number {
    Number::Rational(Rational { numer, denom })
}

#[test]
fn it_works() {
    assert_eq!(2 + 2, 4);
}

#[test]
fn integer_addition_is_exact() {
    assert_eq!(add(Number::new_integer(3), Number::new_integer(4)), Number::new_integer(7));
    assert_eq!(Number::new_integer(3).sum(Number::new_integer(4)), Sum::Exact(Number::Integer(7)));
}

#[test]
fn integer_addition_overflow_is_undefined() {
    assert_eq!(add(Number::new_integer(i64::MAX), Number::new_integer(1)), Number::Undefined);
    assert_eq!(add(Number::new_integer(i64::MIN), Number::new_integer(-1)), Number::Undefined);
}

#[test]
fn rational_exact_sum() {
    assert_eq!(add(Number::new_rational(1, 3), Number::new_rational(1, 6)), Number::new_rational(1, 2));
    assert_eq!(Number::new_rational(1, 2), ratio(1, 2));
}

#[test]
fn rational_sum_collapses_to_integer() {
    assert_eq!(add(Number::new_rational(1, 2), Number::new_rational(1, 2)), Number::new_integer(1));
    assert_eq!(add(Number::new_rational(1, 3), Number::new_rational(2, 3)), Number::new_integer(1));
}

#[test]
fn rational_sum_with_other_denominators() {
    assert_eq!(add(Number::new_rational(1, 4), Number::new_rational(1, 6)), ratio(5, 12));
    assert_eq!(add(Number::new_rational(-1, 4), Number::new_rational(1, 6)), ratio(-1, 12));
}

#[test]
fn rational_sum_overflow_is_undefined() {
    let big = Number::new_rational(i64::MAX - 1, i64::MAX);
    let other = Number::new_rational(1, i64::MAX - 1);
    assert_eq!(add(big, other), Number::Undefined);
}

#[test]
fn division_by_zero_is_undefined() {
    assert_eq!(Number::new_rational(1, 0), Number::Undefined);
    assert_eq!(Number::new_rational(0, 0), Number::Undefined);
}

#[test]
fn rational_is_reduced_with_positive_denominator() {
    assert_eq!(Number::new_rational(6, 9), ratio(2, 3));
    assert_eq!(Number::new_rational(2, -4), ratio(-1, 2));
    assert_eq!(Number::new_rational(-3, -9), ratio(1, 3));
}

#[test]
fn rational_normalization_is_scale_invariant() {
    for k in [1i64, -1, 2, -7, 1000] {
        assert_eq!(Number::new_rational(k * 2, k * 3), Number::new_rational(2, 3));
        assert_eq!(Number::new_rational(k * 5, k * -1), Number::new_rational(5, -1));
    }
}

#[test]
fn rational_integer_division() {
    assert_eq!(Number::new_rational(5, 1), Number::Integer(5));
    assert_eq!(Number::new_rational(-8, 4), Number::Integer(-2));
    assert_eq!(Number::new_rational(0, -5), Number::Integer(0));
    assert_eq!(Number::new_rational(i64::MIN, 2), Number::Integer(i64::MIN / 2));
    assert_eq!(Number::new_rational(i64::MIN, 1), Number::Integer(i64::MIN));
}

#[test]
fn rational_limits() {
    assert_eq!(Number::new_rational(i64::MIN, -1), Number::Undefined);
    assert_eq!(Number::new_rational(1, i64::MIN), Number::Undefined);
    assert_eq!(Number::new_rational(i64::MIN, -3), Number::Undefined);
    assert_eq!(Number::new_rational(2, i64::MIN), ratio(-1, 1 << 62));
    assert_eq!(Number::new_rational(i64::MIN, 3), ratio(i64::MIN, 3));
    assert_eq!(Number::new_rational(i64::MIN, -6), ratio(1 << 62, 3));
}

#[test]
fn integer_collapse() {
    for i in [0i64, 1, -1, 42, -1000, 1 << 52, i64::MIN] {
        assert_eq!(Number::new_rational(i, 1), Number::Integer(i));
        assert_eq!(real_num(i as f64), Number::Integer(i));
    }
    assert_eq!(real_num(-0.0), Number::Integer(0));
    assert_eq!(real_num(4503599627370497.0), Number::Integer(4503599627370497));
    assert_eq!(real_num(4611686018427387904.0), Number::Integer(1 << 62));
}

#[test]
fn real_keeps_fractions_and_non_finite() {
    assert_eq!(real_num(2.5), Number::Real(2.5f64.to_bits()));
    assert_eq!(real_num(-0.75), Number::Real((-0.75f64).to_bits()));
    assert_eq!(real_num(5e-324), Number::Real(5e-324f64.to_bits()));
    assert_eq!(real_num(f64::INFINITY), Number::Real(f64::INFINITY.to_bits()));
    assert_eq!(real_num(f64::NEG_INFINITY), Number::Real(f64::NEG_INFINITY.to_bits()));
    assert_eq!(real_num(f64::NAN), Number::Real(f64::NAN.to_bits()));
}

#[test]
fn real_out_of_range_is_undefined() {
    assert_eq!(real_num(9223372036854775808.0), Number::Undefined);
    assert_eq!(real_num(1e300), Number::Undefined);
    assert_eq!(real_num(-1e19), Number::Undefined);
    assert_eq!(real_num(-9223372036854775808.0), Number::Integer(i64::MIN));
}

#[test]
fn complex_collapse() {
    for x in [2.5f64, 3.0, -7.0, 0.1, f64::NAN] {
        assert_eq!(complex_num(x, 0.0), real_num(x));
        assert_eq!(complex_num(x, -0.0), real_num(x));
    }
    assert_eq!(complex_num(3.0, 0.0), Number::Integer(3));
    assert_eq!(complex_num(1.0, 2.0), Number::Complex(1.0f64.to_bits(), 2.0f64.to_bits()));
}

#[test]
fn undefined_absorbs() {
    let values = [
        Number::Undefined,
        Number::new_integer(5),
        Number::new_rational(1, 3),
        real_num(2.5),
        complex_num(1.0, 2.0),
    ];
    for v in values {
        assert_eq!(add(Number::Undefined, v), Number::Undefined);
        assert_eq!(add(v, Number::Undefined), Number::Undefined);
    }
}

#[test]
fn real_plus_integer() {
    assert_eq!(add(real_num(2.5), Number::new_integer(1)), real_num(3.5));
    assert_eq!(add(real_num(2.5), Number::new_integer(1)), Number::Real(3.5f64.to_bits()));
    assert_eq!(add(real_num(0.25), Number::new_integer(3)), real_num(3.25));
}

#[test]
fn integer_plus_rational() {
    assert_eq!(add(Number::new_integer(3), Number::new_rational(1, 2)), ratio(7, 2));
    assert_eq!(add(Number::new_rational(1, 2), Number::new_integer(3)), ratio(7, 2));
    assert_eq!(add(Number::new_integer(-1), Number::new_rational(1, 2)), ratio(-1, 2));
    assert_eq!(add(Number::new_integer(i64::MAX), Number::new_rational(1, 2)), Number::Undefined);
}

#[test]
fn multiplying_cells_follow_the_table() {
    // integer with real
    assert_eq!(add(Number::new_integer(2), real_num(2.5)), Number::Integer(5));
    // integer with complex: real part multiplied, imaginary part kept
    assert_eq!(add(Number::new_integer(3), complex_num(1.5, 2.0)), complex_num(4.5, 2.0));
    // rational with complex
    assert_eq!(add(Number::new_rational(1, 2), complex_num(3.0, 1.5)), complex_num(1.5, 1.5));
    // real with rational
    assert_eq!(add(real_num(1.5), Number::new_rational(1, 4)), real_num(0.375));
    // real with real
    assert_eq!(add(real_num(1.5), real_num(2.5)), real_num(3.75));
    // real with complex
    assert_eq!(add(real_num(0.5), complex_num(3.0, 2.0)), complex_num(1.5, 2.0));
}

#[test]
fn summing_cells_follow_the_table() {
    assert_eq!(add(Number::new_rational(1, 4), real_num(0.5)), real_num(0.75));
    assert_eq!(add(complex_num(1.5, 2.0), Number::new_integer(1)), complex_num(2.5, 2.0));
    assert_eq!(add(complex_num(1.0, 2.0), Number::new_rational(1, 4)), complex_num(1.25, 2.0));
    assert_eq!(add(complex_num(1.0, 2.0), real_num(0.5)), complex_num(1.5, 2.0));
    assert_eq!(add(complex_num(1.0, 2.0), complex_num(1.0, -2.0)), Number::Integer(2));
    assert_eq!(add(complex_num(1.0, 2.0), complex_num(0.5, 1.0)), complex_num(1.5, 3.0));
}

#[test]
fn float_cells_describe_the_operation() {
    let q = Rational { numer: 1, denom: 3 };
    assert_eq!(
        Number::new_integer(2).sum(real_num(2.5)),
        Sum::Real(FloatOp::Times(Scalar::Float(2.5f64.to_bits()), Scalar::Int(2)))
    );
    assert_eq!(
        Number::Rational(q).sum(real_num(0.5)),
        Sum::Real(FloatOp::Plus(Scalar::Float(0.5f64.to_bits()), Scalar::Ratio(q)))
    );
    assert_eq!(
        complex_num(1.0, 2.0).sum(complex_num(3.0, 4.0)),
        Sum::Complex(
            FloatOp::Plus(Scalar::Float(1.0f64.to_bits()), Scalar::Float(3.0f64.to_bits())),
            FloatOp::Plus(Scalar::Float(2.0f64.to_bits()), Scalar::Float(4.0f64.to_bits()))
        )
    );
}

#[test]
fn well_formed_values() {
    assert!(Number::new_rational(2, 3).is_well_formed());
    assert!(real_num(2.5).is_well_formed());
    assert!(complex_num(1.0, 2.0).is_well_formed());
    assert!(!ratio(2, 4).is_well_formed());
    assert!(!ratio(3, 1).is_well_formed());
    assert!(!Number::Real(3.0f64.to_bits()).is_well_formed());
    assert!(!Number::Complex(1.0f64.to_bits(), 0).is_well_formed());
}
