//! Binary64 values held by their IEEE-754 bit patterns, and the constructors
//! that bring a real or complex value down to an integer when it is whole.
use vstd::prelude::*;
use vstd::arithmetic::power2::{pow2, lemma2_to64, lemma2_to64_rest, lemma_pow2_adds, lemma_pow2_pos, lemma_pow2_strictly_increases};
use vstd::arithmetic::div_mod::{lemma_basic_div, lemma_small_mod};
use vstd::bits::{low_bits_mask, lemma_u64_shl_is_mul, lemma_u64_shr_is_div, lemma_u64_low_bits_mask_is_mod, lemma_u64_pow2_no_overflow};
use crate::number::Number;
use crate::ratio::in_i64;

verus! {

/// The biased exponent field, bits 52 to 62.
pub open spec fn exponent_field(b: u64) -> int {
    ((b >> 52u64) & 0x7ffu64) as int
}

/// The fraction field, bits 0 to 51.
pub open spec fn fraction_field(b: u64) -> int {
    (b & 0xf_ffff_ffff_ffffu64) as int
}

/// The sign bit.
pub open spec fn sign_bit(b: u64) -> bool {
    (b >> 63u64) == 1
}

/// Neither an infinity nor a NaN.
pub open spec fn is_finite(b: u64) -> bool {
    exponent_field(b) != 0x7ff
}

/// Positive or negative zero.
pub open spec fn is_zero(b: u64) -> bool {
    exponent_field(b) == 0 && fraction_field(b) == 0
}

/// The integer significand: a finite value is `±significand * 2^scale`.
pub open spec fn significand(b: u64) -> nat {
    if exponent_field(b) == 0 {
        fraction_field(b) as nat
    } else {
        (fraction_field(b) + pow2(52)) as nat
    }
}

/// The power of two that the significand is scaled by.
pub open spec fn scale(b: u64) -> int {
    if exponent_field(b) == 0 {
        -1074
    } else {
        exponent_field(b) - 1075
    }
}

/// A finite value without a fractional part.
pub open spec fn is_whole(b: u64) -> bool {
    is_finite(b) && (scale(b) >= 0 || significand(b) % pow2((-scale(b)) as nat) == 0)
}

/// The magnitude of a whole value.
pub open spec fn whole_magnitude(b: u64) -> nat {
    if scale(b) >= 0 {
        significand(b) * pow2(scale(b) as nat)
    } else {
        significand(b) / pow2((-scale(b)) as nat)
    }
}

/// The integer that a whole value is.
pub open spec fn whole_value(b: u64) -> int {
    if sign_bit(b) {
        -whole_magnitude(b)
    } else {
        whole_magnitude(b) as int
    }
}

/// What `new_real(b)` gives: an `Integer` for a whole value that fits in an
/// `i64`, `Undefined` for a whole value that does not, and `Real` otherwise
/// (NaN and the infinities included).
pub open spec fn real_of(b: u64) -> Number {
    if is_whole(b) {
        if in_i64(whole_value(b)) {
            Number::Integer(whole_value(b) as i64)
        } else {
            Number::Undefined
        }
    } else {
        Number::Real(b)
    }
}

/// What `new_complex(re, im)` gives: `real_of(re)` when the imaginary part is
/// a zero of either sign, `Complex` otherwise.
pub open spec fn complex_of(re: u64, im: u64) -> Number {
    if is_zero(im) {
        real_of(re)
    } else {
        Number::Complex(re, im)
    }
}

/// The signed integer of a magnitude below `2^63`.
fn signed(negative: bool, mag: u64) -> (r: i64)
    requires
        mag < 0x8000_0000_0000_0000u64,
    ensures
        r as int == if negative { -(mag as int) } else { mag as int },
{
    if negative {
        -(mag as i64)
    } else {
        mag as i64
    }
}

impl Number {
    /// A real number given by its binary64 bits, as an `Integer` when it has
    /// no fractional part. A whole value outside the `i64` range gives
    /// `Undefined`; NaN and the infinities stay `Real`.
    pub fn new_real(bits: u64) -> (r: Number)
        ensures
            r == real_of(bits),
            r.wf(),
    {
        let e: u64 = (bits >> 52u64) & 0x7ffu64;
        let f: u64 = bits & 0xf_ffff_ffff_ffffu64;
        let negative: bool = (bits >> 63u64) == 1;
        if e == 0x7ffu64 {
            return Number::Real(bits);
        }
        proof {
            lemma2_to64();
            lemma2_to64_rest();
            assert(e <= 0x7ff) by (bit_vector)
                requires
                    e == (bits >> 52u64) & 0x7ffu64,
            ;
            assert(f < 0x10_0000_0000_0000u64) by (bit_vector)
                requires
                    f == bits & 0xf_ffff_ffff_ffffu64,
            ;
        }
        let sig: u64 = if e == 0 {
            f
        } else {
            assert(f | 0x10_0000_0000_0000u64 == f + 0x10_0000_0000_0000u64) by (bit_vector)
                requires
                    f < 0x10_0000_0000_0000u64,
            ;
            f | 0x10_0000_0000_0000u64
        };
        assert(sig == significand(bits));
        assert(sig < 0x20_0000_0000_0000u64);
        if e >= 1075 {
            let sh: u64 = e - 1075;
            assert(scale(bits) == sh);
            assert(sig >= 0x10_0000_0000_0000u64);
            if sh <= 10 {
                proof {
                    if sh < 10 {
                        lemma_pow2_strictly_increases(sh as nat, 10);
                    }
                    assert(sig * pow2(sh as nat) < 0x8000_0000_0000_0000u64) by (nonlinear_arith)
                        requires
                            sig < 0x20_0000_0000_0000u64,
                            pow2(sh as nat) <= 1024,
                    ;
                    lemma_u64_shl_is_mul(sig, sh);
                }
                let mag: u64 = sig << sh;
                Number::Integer(signed(negative, mag))
            } else {
                proof {
                    lemma_pow2_adds(11, (sh - 11) as nat);
                    lemma_pow2_pos((sh - 11) as nat);
                    let m = sig * pow2(sh as nat);
                    assert(m == sig * 2048 * pow2((sh - 11) as nat)) by (nonlinear_arith)
                        requires
                            pow2(sh as nat) == 2048 * pow2((sh - 11) as nat),
                            m == sig * pow2(sh as nat),
                    ;
                    if sh > 11 {
                        lemma_pow2_strictly_increases(0, (sh - 11) as nat);
                        assert(m >= 0x10000_0000_0000_0000) by (nonlinear_arith)
                            requires
                                m == sig * 2048 * pow2((sh - 11) as nat),
                                sig >= 0x10_0000_0000_0000u64,
                                pow2((sh - 11) as nat) >= 2,
                        ;
                    } else {
                        assert(pow2(0) == 1);
                        if sig > 0x10_0000_0000_0000u64 {
                            assert(m > 0x8000_0000_0000_0000) by (nonlinear_arith)
                                requires
                                    m == sig * 2048 * 1,
                                    sig > 0x10_0000_0000_0000u64,
                            ;
                        }
                    }
                }
                if sh == 11 && sig == 0x10_0000_0000_0000u64 && negative {
                    Number::Integer(i64::MIN)
                } else {
                    Number::Undefined
                }
            }
        } else {
            let sh: u64 = if e == 0 {
                1074
            } else {
                1075 - e
            };
            assert(scale(bits) == -(sh as int));
            if sh >= 64 {
                proof {
                    lemma_pow2_strictly_increases(53, sh as nat);
                    lemma_small_mod(sig as nat, pow2(sh as nat));
                    lemma_basic_div(sig as int, pow2(sh as nat) as int);
                }
                if sig == 0 {
                    Number::Integer(0)
                } else {
                    Number::Real(bits)
                }
            } else {
                proof {
                    lemma_u64_pow2_no_overflow(sh as nat);
                    lemma_u64_shl_is_mul(1, sh);
                    lemma_u64_low_bits_mask_is_mod(sig, sh as nat);
                    lemma_u64_shr_is_div(sig, sh);
                    lemma_pow2_pos(sh as nat);
                }
                let mask: u64 = (1u64 << sh) - 1;
                assert(mask == low_bits_mask(sh as nat) as u64);
                if sig & mask == 0 {
                    let mag: u64 = sig >> sh;
                    assert(mag <= sig) by (nonlinear_arith)
                        requires
                            mag == sig as nat / pow2(sh as nat),
                            pow2(sh as nat) > 0,
                    ;
                    Number::Integer(signed(negative, mag))
                } else {
                    Number::Real(bits)
                }
            }
        }
    }

    /// A complex number given by the bits of its two parts; a zero imaginary
    /// part (of either sign) gives `new_real(re)`.
    pub fn new_complex(re: u64, im: u64) -> (r: Number)
        ensures
            r == complex_of(re, im),
            r.wf(),
    {
        if im & 0x7fff_ffff_ffff_ffffu64 == 0 {
            assert((im >> 52u64) & 0x7ffu64 == 0 && im & 0xf_ffff_ffff_ffffu64 == 0) by (bit_vector)
                requires
                    im & 0x7fff_ffff_ffff_ffffu64 == 0,
            ;
            Number::new_real(re)
        } else {
            assert(!((im >> 52u64) & 0x7ffu64 == 0 && im & 0xf_ffff_ffff_ffffu64 == 0)) by (bit_vector)
                requires
                    im & 0x7fff_ffff_ffff_ffffu64 != 0,
            ;
            Number::Complex(re, im)
        }
    }
}

} // verus!
