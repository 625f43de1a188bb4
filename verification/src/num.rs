//! Double-precision numbers, carried across the runtime boundary by their
//! IEEE-754 bit pattern.
//!
//! The comparison semantics the runtime requires are mathematical: an
//! integer and a number are equal exactly when they denote the same
//! mathematical value, and numbers order by the values they denote.  Every
//! finite double equals `mantissa * 2^(exponent - 1075)`, so multiplying by
//! `2^1074` turns every finite double into the mathematical integer
//! `num_key`; the comparisons below are specified against that scaled value
//! and implemented with integer arithmetic on the bit pattern alone.

use vstd::prelude::*;
use vstd::arithmetic::power2::{pow2, lemma_pow2_adds, lemma_pow2_strictly_increases, lemma_pow2_pos, lemma2_to64};
use vstd::arithmetic::mul::{lemma_mul_inequality, lemma_mul_strict_inequality};
use crate::ord::{ValueOrder, cmp3};

verus! {

/// Mask selecting everything but the sign bit.
pub const ABS_MASK: u64 = 0x7fff_ffff_ffff_ffff;

/// Magnitude bits of an infinity; larger magnitude bits are NaNs.
pub const INF_BITS: u64 = 0x7ff0_0000_0000_0000;

/// Mask selecting the 52 fraction bits.
pub const FRAC_MASK: u64 = 0x000f_ffff_ffff_ffff;

/// The implicit leading mantissa bit of a normal number, `2^52`.
pub const IMPLICIT_BIT: u64 = 0x0010_0000_0000_0000;

/// A double-precision number, represented by its IEEE-754 bit pattern.
#[derive(Clone, Copy, Debug)]
pub struct Number {
    pub bits: u64,
}

/// The magnitude bits of a pattern: the pattern with its sign bit cleared.
pub open spec fn abs_bits(x: u64) -> u64 {
    x & ABS_MASK
}

/// Whether the sign bit of a pattern is set.
pub open spec fn sign_bit(x: u64) -> bool {
    x >= 0x8000_0000_0000_0000
}

/// Whether a pattern denotes NaN.
pub open spec fn is_nan(x: u64) -> bool {
    abs_bits(x) > INF_BITS
}

/// Whether a pattern denotes one of the two infinities.
pub open spec fn is_infinite(x: u64) -> bool {
    abs_bits(x) == INF_BITS
}

/// Whether a pattern denotes a finite number.
pub open spec fn is_finite(x: u64) -> bool {
    abs_bits(x) < INF_BITS
}

/// Biased exponent field of magnitude bits.
pub open spec fn m_exp(xb: u64) -> u64 {
    xb >> 52u64
}

/// Fraction field of magnitude bits.
pub open spec fn m_frac(xb: u64) -> u64 {
    xb & FRAC_MASK
}

/// Full mantissa of magnitude bits, with the implicit bit of normal numbers.
pub open spec fn m_mant(xb: u64) -> int {
    if m_exp(xb) == 0 {
        m_frac(xb) as int
    } else {
        m_frac(xb) + IMPLICIT_BIT
    }
}

/// Power of two placing the mantissa on the `2^1074` scale: a finite
/// magnitude denotes `m_mant * 2^(m_pexp - 1074)`.
pub open spec fn m_pexp(xb: u64) -> nat {
    if m_exp(xb) == 0 {
        0
    } else {
        (m_exp(xb) - 1) as nat
    }
}

/// Magnitude of a non-NaN pattern, scaled by `2^1074`; infinities map to
/// `2^2100`, strictly above every finite magnitude.
pub open spec fn m_key(xb: u64) -> int {
    if xb == INF_BITS {
        pow2(2100) as int
    } else {
        m_mant(xb) * pow2(m_pexp(xb))
    }
}

/// The mathematical value denoted by a non-NaN pattern, scaled by `2^1074`.
/// Both zero patterns map to zero.
pub open spec fn num_key(x: u64) -> int {
    if sign_bit(x) {
        -m_key(abs_bits(x))
    } else {
        m_key(abs_bits(x))
    }
}

/// Ordering of two patterns as the display order requires: mathematically
/// by denoted value, with every comparison against a NaN answering `Equal`.
pub open spec fn num_order(a: u64, b: u64) -> ValueOrder {
    if is_nan(a) || is_nan(b) {
        ValueOrder::Equal
    } else {
        cmp3(num_key(a), num_key(b))
    }
}

/// Ordering of a mathematical integer against a pattern, on the same scale.
pub open spec fn int_num_order(i: int, x: u64) -> ValueOrder {
    if is_nan(x) {
        ValueOrder::Equal
    } else {
        cmp3(i * pow2(1074), num_key(x))
    }
}

/// Numeric equality of two patterns: never true of NaN, true of the two
/// zeros, and otherwise exact equality of denoted values.
pub open spec fn nums_equal(a: u64, b: u64) -> bool {
    &&& !is_nan(a)
    &&& !is_nan(b)
    &&& num_key(a) == num_key(b)
}

/// Numeric equality of a mathematical integer and a pattern.
pub open spec fn int_num_equal(i: int, x: u64) -> bool {
    &&& !is_nan(x)
    &&& i * pow2(1074) == num_key(x)
}

impl Number {
    /// Wraps an IEEE-754 double bit pattern.
    pub fn from_bits(bits: u64) -> (r: Number)
        ensures
            r.bits == bits,
    {
        Number { bits }
    }

    /// The underlying bit pattern.
    pub fn to_bits(&self) -> (r: u64)
        ensures
            r == self.bits,
    {
        self.bits
    }

    /// Whether this pattern denotes NaN.
    pub fn is_nan(&self) -> (r: bool)
        ensures
            r == is_nan(self.bits),
    {
        proof {
            lemma_abs_bits(self.bits);
        }
        self.bits & ABS_MASK > INF_BITS
    }

    /// Whether this pattern denotes an infinity.
    pub fn is_infinite(&self) -> (r: bool)
        ensures
            r == is_infinite(self.bits),
    {
        proof {
            lemma_abs_bits(self.bits);
        }
        self.bits & ABS_MASK == INF_BITS
    }

    /// Whether the sign bit is set.
    pub fn is_sign_negative(&self) -> (r: bool)
        ensures
            r == sign_bit(self.bits),
    {
        self.bits >= 0x8000_0000_0000_0000
    }

    /// The mantissa and its scale exponent, for a finite number.
    pub fn mant_and_pexp(&self) -> (r: (u64, i64))
        requires
            is_finite(self.bits),
        ensures
            r.0 == m_mant(abs_bits(self.bits)),
            r.1 == m_pexp(abs_bits(self.bits)),
            0 <= r.1 <= 2045,
    {
        proof {
            lemma_abs_bits(self.bits);
            lemma_fields(abs_bits(self.bits));
            lemma_mant_bounds(abs_bits(self.bits));
        }
        let xb = self.bits & ABS_MASK;
        let e = xb >> 52u64;
        let f = xb & FRAC_MASK;
        if e == 0 {
            (f, 0)
        } else {
            (f + IMPLICIT_BIT, (e - 1) as i64)
        }
    }

    /// The machine integer this number denotes exactly, when there is one.
    pub fn as_exact_i64(&self) -> (r: Option<i64>)
        ensures
            match r {
                Option::Some(i) => exact_int(self.bits) == Option::Some(i as int),
                Option::None => exact_int(self.bits) is None,
            },
    {
        proof {
            lemma_abs_bits(self.bits);
            lemma2_to64();
            vstd::arithmetic::power2::lemma2_to64_rest();
        }
        let xb = self.bits & ABS_MASK;
        if xb >= INF_BITS {
            return Option::None;
        }
        if xb == 0 {
            return Option::Some(0);
        }
        proof {
            lemma_fields(xb);
            lemma_mant_bounds(xb);
        }
        let sign = self.bits >= 0x8000_0000_0000_0000;
        let e = xb >> 52u64;
        let f = xb & FRAC_MASK;
        let m: u64 = if e == 0 {
            f
        } else {
            f + IMPLICIT_BIT
        };
        let p: u64 = if e == 0 {
            0
        } else {
            e - 1
        };
        if p >= 1074 {
            let k: u64 = p - 1074;
            if k > 11 {
                // The magnitude is at least 2^52 * 2^12 = 2^64, out of range.
                proof {
                    lemma_pow2_pos(k as nat);
                    lemma_mul_inequality(pow2(52) as int, m_mant(xb), pow2(k as nat) as int);
                    lemma_pow2_adds(52, k as nat);
                    if 64 < 52 + k {
                        lemma_pow2_strictly_increases(64, (52 + k) as nat);
                    }
                    vstd::arithmetic::mul::lemma_mul_is_commutative(pow2(52) as int, pow2(k as nat) as int);
                }
                return Option::None;
            }
            proof {
                lemma_pow2_pos(k as nat);
                lemma_pow2_adds(53, k as nat);
                if 53 + k < 64 {
                    lemma_pow2_strictly_increases((53 + k) as nat, 64);
                }
                lemma_mul_strict_inequality(m as int, pow2(53) as int, pow2(k as nat) as int);
                vstd::bits::lemma_u64_shl_is_mul(m, k);
            }
            let fm: u64 = m << k;
            if !sign {
                if fm <= 0x7fff_ffff_ffff_ffff {
                    Option::Some(fm as i64)
                } else {
                    Option::None
                }
            } else {
                if fm < 0x8000_0000_0000_0000 {
                    Option::Some(-(fm as i64))
                } else if fm == 0x8000_0000_0000_0000 {
                    Option::Some(i64::MIN)
                } else {
                    Option::None
                }
            }
        } else {
            let j: u64 = 1074 - p;
            if j >= 53 {
                // The number has a fractional part: its mantissa is smaller
                // than the denominator 2^j.
                proof {
                    if 53 < j {
                        lemma_pow2_strictly_increases(53, j as nat);
                    }
                    if m_mant(xb) < pow2(j as nat) {
                        vstd::arithmetic::div_mod::lemma_small_mod(m_mant(xb) as nat, pow2(j as nat));
                    }
                }
                return Option::None;
            }
            let q: u64 = m >> j;
            proof {
                vstd::bits::lemma_u64_pow2_no_overflow(j as nat);
                vstd::bits::lemma_u64_shl_is_mul(1u64, j);
                lemma_pow2_pos(j as nat);
            }
            let mask: u64 = (1u64 << j) - 1;
            let rem: u64 = m & mask;
            proof {
                lemma_split_low_bits(m, j, mask);
                vstd::arithmetic::div_mod::lemma_fundamental_div_mod_converse(
                    m as int,
                    pow2(j as nat) as int,
                    q as int,
                    rem as int,
                );
            }
            if rem != 0 {
                Option::None
            } else if sign {
                Option::Some(-(q as i64))
            } else {
                Option::Some(q as i64)
            }
        }
    }
}

/// The exact machine-range integer a pattern denotes, when it denotes one.
pub open spec fn exact_int(x: u64) -> Option<int> {
    if !is_finite(x) {
        Option::None
    } else {
        let xb = abs_bits(x);
        if xb == 0 {
            Option::Some(0)
        } else {
            let m = m_mant(xb);
            let p = m_pexp(xb);
            if p >= 1074 {
                let mag = m * pow2((p - 1074) as nat);
                let v: int = if sign_bit(x) {
                    -mag
                } else {
                    mag
                };
                if -0x8000_0000_0000_0000 <= v < 0x8000_0000_0000_0000 {
                    Option::Some(v)
                } else {
                    Option::None
                }
            } else {
                let j = (1074 - p) as nat;
                if m % (pow2(j) as int) == 0 {
                    let mag = m / (pow2(j) as int);
                    Option::Some(
                        if sign_bit(x) {
                            -mag
                        } else {
                            mag
                        },
                    )
                } else {
                    Option::None
                }
            }
        }
    }
}

/// A pattern that denotes an integer exactly is numerically equal to it.
pub proof fn lemma_exact_int_key(x: u64)
    requires
        exact_int(x) is Some,
    ensures
        int_num_equal(exact_int(x)->Some_0, x),
{
    let xb = abs_bits(x);
    lemma_pow2_pos(1074);
    if xb == 0 {
        lemma_mag_zero(xb);
        assert(0 * pow2(1074) == 0);
    } else {
        let m = m_mant(xb);
        let p = m_pexp(xb);
        lemma_fields(xb);
        lemma_mant_bounds(xb);
        if p >= 1074 {
            let k = (p - 1074) as nat;
            lemma_pow2_adds(k, 1074);
            vstd::arithmetic::mul::lemma_mul_is_associative(m, pow2(k) as int, pow2(1074) as int);
            vstd::arithmetic::mul::lemma_mul_unary_negation(
                (m * pow2(k)) as int,
                pow2(1074) as int,
            );
        } else {
            let j = (1074 - p) as nat;
            if m % (pow2(j) as int) == 0 {
                let q = m / (pow2(j) as int);
                lemma_pow2_pos(j);
                lemma_pow2_pos(p);
                vstd::arithmetic::div_mod::lemma_fundamental_div_mod(m, pow2(j) as int);
                lemma_pow2_adds(j, p);
                vstd::arithmetic::mul::lemma_mul_is_associative(q, pow2(j) as int, pow2(p) as int);
                vstd::arithmetic::mul::lemma_mul_is_commutative(pow2(j) as int, q);
                vstd::arithmetic::mul::lemma_mul_unary_negation(q, pow2(1074) as int);
                assert(m == q * pow2(j));
                assert(q * pow2(1074) == m * pow2(p));
            }
        }
    }
}

/// The magnitude bits are the pattern minus its sign bit.
pub(crate) proof fn lemma_abs_bits(x: u64)
    ensures
        abs_bits(x) == if x >= 0x8000_0000_0000_0000 {
            x - 0x8000_0000_0000_0000
        } else {
            x as int
        },
        abs_bits(x) <= ABS_MASK,
{
    assert((x >= 0x8000_0000_0000_0000 ==> (x & 0x7fff_ffff_ffff_ffff) + 0x8000_0000_0000_0000
        == x) && (x < 0x8000_0000_0000_0000 ==> x & 0x7fff_ffff_ffff_ffff == x)
        && x & 0x7fff_ffff_ffff_ffff <= 0x7fff_ffff_ffff_ffff) by (bit_vector);
}

/// Magnitude bits split into exponent and fraction fields.
pub(crate) proof fn lemma_fields(xb: u64)
    requires
        xb <= INF_BITS,
    ensures
        xb == m_exp(xb) * IMPLICIT_BIT + m_frac(xb),
        m_frac(xb) < IMPLICIT_BIT,
        m_exp(xb) <= 2047,
        xb < INF_BITS ==> m_exp(xb) <= 2046,
        xb == INF_BITS ==> m_exp(xb) == 2047 && m_frac(xb) == 0,
{
    assert(xb == (xb >> 52u64) * 0x0010_0000_0000_0000 + (xb & 0x000f_ffff_ffff_ffff)
        && (xb & 0x000f_ffff_ffff_ffff) < 0x0010_0000_0000_0000
        && (xb >> 52u64) <= 2047
        && (xb < 0x7ff0_0000_0000_0000 ==> (xb >> 52u64) <= 2046)
        && (xb == 0x7ff0_0000_0000_0000 ==> (xb >> 52u64) == 2047
            && (xb & 0x000f_ffff_ffff_ffff) == 0)) by (bit_vector)
        requires
            xb <= 0x7ff0_0000_0000_0000,
    ;
}

/// Bounds on a finite mantissa and its scale.
pub(crate) proof fn lemma_mant_bounds(xb: u64)
    requires
        xb < INF_BITS,
    ensures
        0 <= m_mant(xb) < pow2(53),
        m_exp(xb) >= 1 ==> m_mant(xb) >= pow2(52),
        m_pexp(xb) <= 2045,
        m_mant(xb) * pow2(m_pexp(xb)) >= 0,
{
    lemma_fields(xb);
    lemma2_to64();
    vstd::arithmetic::power2::lemma2_to64_rest();
    lemma_pow2_pos(m_pexp(xb));
    vstd::arithmetic::mul::lemma_mul_nonnegative(m_mant(xb), pow2(m_pexp(xb)) as int);
}

/// Strict monotonicity of the scaled magnitude in the magnitude bits: the
/// IEEE-754 encoding orders magnitudes the same way the raw bits do.
proof fn lemma_m_key_mono(x: u64, y: u64)
    requires
        x < y <= INF_BITS,
    ensures
        m_key(x) < m_key(y),
{
    lemma_fields(x);
    lemma_fields(y);
    if y == INF_BITS {
        // Every finite magnitude is below 2^2098 < 2^2100.
        lemma_mant_bounds(x);
        lemma_pow2_pos(m_pexp(x));
        lemma_mul_strict_inequality(m_mant(x), pow2(53) as int, pow2(m_pexp(x)) as int);
        lemma_pow2_adds(53, m_pexp(x));
        lemma_pow2_strictly_increases((53 + m_pexp(x)) as nat, 2100);
        assert(m_mant(x) * pow2(m_pexp(x)) < pow2(53) * pow2(m_pexp(x)));
    } else {
        lemma_mant_bounds(x);
        lemma_mant_bounds(y);
        let e1 = m_exp(x);
        let e2 = m_exp(y);
        lemma2_to64();
        if e1 == e2 {
            assert(m_frac(x) < m_frac(y));
            lemma_pow2_pos(m_pexp(x));
            lemma_mul_strict_inequality(m_mant(x), m_mant(y), pow2(m_pexp(x)) as int);
        } else {
            assert(e1 < e2);
            if e1 == 0 && e2 == 1 {
                // Same scale; a subnormal mantissa is below the implicit bit.
                lemma_pow2_pos(0);
                assert(m_pexp(x) == 0 && m_pexp(y) == 0);
                lemma_mul_strict_inequality(m_mant(x), m_mant(y), pow2(0) as int);
            } else {
                // The scales differ enough that the extra mantissa bit of x
                // cannot make up for them.
                let p1 = m_pexp(x);
                let p2 = m_pexp(y);
                assert(p1 + 53 <= p2 + 52);
                lemma_pow2_pos(p1);
                lemma_pow2_pos(p2);
                lemma_mul_strict_inequality(m_mant(x), pow2(53) as int, pow2(p1) as int);
                lemma_pow2_adds(53, p1);
                if 53 + p1 < 52 + p2 {
                    lemma_pow2_strictly_increases((53 + p1) as nat, (52 + p2) as nat);
                }
                lemma_pow2_adds(52, p2);
                lemma_mul_inequality(pow2(52) as int, m_mant(y), pow2(p2) as int);
                assert(m_mant(x) * pow2(p1) < pow2(53) * pow2(p1));
                assert(pow2(52) * pow2(p2) <= m_mant(y) * pow2(p2));
            }
        }
    }
}

/// Three-way comparison of the magnitudes of two non-NaN patterns, given as
/// magnitude bits.
fn cmp_mag(xa: u64, xb: u64) -> (r: ValueOrder)
    requires
        xa <= INF_BITS,
        xb <= INF_BITS,
    ensures
        r == cmp3(m_key(xa), m_key(xb)),
{
    if xa < xb {
        proof {
            lemma_m_key_mono(xa, xb);
        }
        ValueOrder::Less
    } else if xa == xb {
        ValueOrder::Equal
    } else {
        proof {
            lemma_m_key_mono(xb, xa);
        }
        ValueOrder::Greater
    }
}

/// Compares two numbers for display ordering: mathematically by denoted
/// value, two zeros equal, and any comparison involving NaN `Equal`.
pub fn cmp_numbers(a: Number, b: Number) -> (r: ValueOrder)
    ensures
        r == num_order(a.bits, b.bits),
{
    proof {
        lemma_abs_bits(a.bits);
        lemma_abs_bits(b.bits);
    }
    let xa = a.bits & ABS_MASK;
    let xb = b.bits & ABS_MASK;
    if xa > INF_BITS || xb > INF_BITS {
        return ValueOrder::Equal;
    }
    let sa = a.bits >= 0x8000_0000_0000_0000;
    let sb = b.bits >= 0x8000_0000_0000_0000;
    proof {
        lemma_mag_zero(xa);
        lemma_mag_zero(xb);
        if xa > 0 {
            lemma_m_key_mono(0, xa);
        }
        if xb > 0 {
            lemma_m_key_mono(0, xb);
        }
    }
    if xa == 0 && xb == 0 {
        return ValueOrder::Equal;
    }
    if sa != sb {
        return if sa {
            ValueOrder::Less
        } else {
            ValueOrder::Greater
        };
    }
    let mag = cmp_mag(xa, xb);
    if sa {
        match mag {
            ValueOrder::Less => ValueOrder::Greater,
            ValueOrder::Equal => ValueOrder::Equal,
            ValueOrder::Greater => ValueOrder::Less,
        }
    } else {
        mag
    }
}

/// A zero magnitude has key zero.
proof fn lemma_mag_zero(xb: u64)
    requires
        xb <= INF_BITS,
    ensures
        xb == 0 ==> m_key(xb) == 0,
{
    if xb == 0 {
        lemma_fields(xb);
        assert(m_mant(0) == 0);
        assert(m_key(0) == 0 * pow2(0));
    }
}

/// Equality of two numbers: mathematical equality of denoted values, never
/// true of NaN.
pub fn numbers_equal(a: Number, b: Number) -> (r: bool)
    ensures
        r == nums_equal(a.bits, b.bits),
{
    proof {
        lemma_abs_bits(a.bits);
        lemma_abs_bits(b.bits);
    }
    if a.bits & ABS_MASK > INF_BITS || b.bits & ABS_MASK > INF_BITS {
        return false;
    }
    matches!(cmp_numbers(a, b), ValueOrder::Equal)
}

/// Compares the magnitude of a nonzero integer against a nonzero, non-NaN
/// magnitude given as magnitude bits.
fn cmp_mag_int(mag: u64, xb: u64) -> (r: ValueOrder)
    requires
        mag >= 1,
        0 < xb <= INF_BITS,
    ensures
        r == cmp3(mag * pow2(1074), m_key(xb)),
{
    proof {
        lemma2_to64();
        vstd::arithmetic::power2::lemma2_to64_rest();
    }
    if xb == INF_BITS {
        // mag * 2^1074 <= (2^64 - 1) * 2^1074 < 2^1138 <= 2^2100.
        proof {
            lemma_pow2_pos(1074);
            lemma_mul_strict_inequality(mag as int, pow2(64) as int, pow2(1074) as int);
            lemma_pow2_adds(64, 1074);
            lemma_pow2_strictly_increases(1138, 2100);
        }
        return ValueOrder::Less;
    }
    proof {
        lemma_fields(xb);
        lemma_mant_bounds(xb);
    }
    let e = xb >> 52u64;
    let f = xb & FRAC_MASK;
    let m: u64 = if e == 0 {
        f
    } else {
        f + IMPLICIT_BIT
    };
    let p: u64 = if e == 0 {
        0
    } else {
        e - 1
    };
    assert(m == m_mant(xb) && p == m_pexp(xb));
    if p >= 1086 {
        // The number is at least 2^52 * 2^1086 = 2^1138 > mag * 2^1074.
        proof {
            lemma_pow2_pos(1074);
            lemma_mul_strict_inequality(mag as int, pow2(64) as int, pow2(1074) as int);
            lemma_pow2_adds(64, 1074);
            if 1138 < 52 + p {
                lemma_pow2_strictly_increases(1138, (52 + p) as nat);
            }
            lemma_pow2_adds(52, p as nat);
            lemma_pow2_pos(p as nat);
            lemma_mul_inequality(pow2(52) as int, m as int, pow2(p as nat) as int);
        }
        return ValueOrder::Less;
    }
    if p >= 1074 {
        // The number is the integer m * 2^(p - 1074), which fits in a u64.
        let k: u64 = p - 1074;
        proof {
            lemma_pow2_pos(k as nat);
            lemma_pow2_adds(53, k as nat);
            if 53 + k < 64 {
                lemma_pow2_strictly_increases((53 + k) as nat, 64);
            }
            lemma_mul_strict_inequality(m as int, pow2(53) as int, pow2(k as nat) as int);
            assert(m * pow2(k as nat) < pow2(53) * pow2(k as nat));
            vstd::bits::lemma_u64_shl_is_mul(m, k);
            // Comparing on the 2^1074 scale is comparing the raw values.
            lemma_pow2_pos(1074);
            lemma_pow2_adds(k as nat, 1074);
            vstd::arithmetic::mul::lemma_mul_is_associative(m as int, pow2(k as nat) as int, pow2(1074) as int);
            if mag < m << k {
                lemma_mul_strict_inequality(mag as int, (m << k) as int, pow2(1074) as int);
            }
            if m << k < mag {
                lemma_mul_strict_inequality((m << k) as int, mag as int, pow2(1074) as int);
            }
        }
        let fm: u64 = m << k;
        return if mag < fm {
            ValueOrder::Less
        } else if mag == fm {
            ValueOrder::Equal
        } else {
            ValueOrder::Greater
        };
    }
    let j: u64 = 1074 - p;
    if j >= 53 {
        // The number is below 1 <= mag.
        proof {
            lemma_pow2_pos(p as nat);
            lemma_mul_strict_inequality(m as int, pow2(53) as int, pow2(p as nat) as int);
            lemma_pow2_adds(53, p as nat);
            if 53 + p < 1074 {
                lemma_pow2_strictly_increases((53 + p) as nat, 1074);
            }
            lemma_pow2_pos(1074);
            lemma_mul_inequality(1, mag as int, pow2(1074) as int);
        }
        return ValueOrder::Greater;
    }
    // 1 <= j <= 52: the number is (q * 2^j + rem) / 2^j on the integer scale.
    let q: u64 = m >> j;
    proof {
        vstd::bits::lemma_u64_pow2_no_overflow(j as nat);
        vstd::bits::lemma_u64_shl_is_mul(1u64, j);
        lemma_pow2_pos(j as nat);
    }
    let mask: u64 = (1u64 << j) - 1;
    let rem: u64 = m & mask;
    proof {
        lemma_split_low_bits(m, j, mask);
        lemma_pow2_pos(p as nat);
        lemma_pow2_adds(j as nat, p as nat);
        // mag * 2^1074 = (mag * 2^j) * 2^p and m_key = m * 2^p.
        vstd::arithmetic::mul::lemma_mul_is_associative(mag as int, pow2(j as nat) as int, pow2(p as nat) as int);
        let lhs = mag * pow2(j as nat);
        let rhs = q * pow2(j as nat) + rem;
        if lhs < rhs {
            lemma_mul_strict_inequality(lhs, rhs, pow2(p as nat) as int);
        }
        if rhs < lhs {
            lemma_mul_strict_inequality(rhs, lhs, pow2(p as nat) as int);
        }
        if mag < q {
            lemma_mul_strict_inequality(mag as int, q as int, pow2(j as nat) as int);
        }
        if q < mag {
            // q + 1 <= mag, so q * 2^j + rem < (q + 1) * 2^j <= mag * 2^j.
            lemma_mul_inequality(q + 1, mag as int, pow2(j as nat) as int);
            vstd::arithmetic::mul::lemma_mul_is_distributive_add_other_way(pow2(j as nat) as int, q as int, 1);
        }
    }
    if mag < q {
        ValueOrder::Less
    } else if mag > q {
        ValueOrder::Greater
    } else if rem == 0 {
        ValueOrder::Equal
    } else {
        ValueOrder::Less
    }
}

/// A value split by a shift: quotient and low bits.
pub(crate) proof fn lemma_split_low_bits(m: u64, j: u64, mask: u64)
    requires
        1 <= j <= 52,
        mask + 1 == 1u64 << j,
    ensures
        m == (m >> j) * pow2(j as nat) + (m & mask),
        (m & mask) < pow2(j as nat),
        m >> j <= m,
{
    assert(m == ((m >> j) << j) + (m & mask) && (m & mask) <= mask && m >> j <= m) by (bit_vector)
        requires
            mask + 1 == 1u64 << j && 1 <= j <= 52,
    ;
    vstd::bits::lemma_u64_pow2_no_overflow(j as nat);
    vstd::bits::lemma_u64_shl_is_mul(1u64, j);
    lemma_pow2_pos(j as nat);
    let q = m >> j;
    vstd::bits::lemma_u64_shr_is_div(m, j);
    vstd::arithmetic::div_mod::lemma_fundamental_div_mod(m as int, pow2(j as nat) as int);
    vstd::arithmetic::div_mod::lemma_mod_bound(m as int, pow2(j as nat) as int);
    vstd::arithmetic::mul::lemma_mul_is_commutative(q as int, pow2(j as nat) as int);
    vstd::bits::lemma_u64_shl_is_mul(q, j);
}

/// Compares a machine integer against a number: mathematically by value,
/// `Equal` against NaN.
pub fn cmp_int_number(i: i64, b: Number) -> (r: ValueOrder)
    ensures
        r == int_num_order(i as int, b.bits),
{
    proof {
        lemma_abs_bits(b.bits);
        lemma_pow2_pos(1074);
    }
    let xb = b.bits & ABS_MASK;
    if xb > INF_BITS {
        return ValueOrder::Equal;
    }
    let sb = b.bits >= 0x8000_0000_0000_0000;
    proof {
        lemma_mag_zero(xb);
        if xb > 0 {
            lemma_m_key_mono(0, xb);
        }
    }
    if i == 0 {
        if xb == 0 {
            return ValueOrder::Equal;
        }
        return if sb {
            ValueOrder::Greater
        } else {
            ValueOrder::Less
        };
    }
    let si = i < 0;
    proof {
        if si {
            lemma_mul_strict_inequality(i as int, 0, pow2(1074) as int);
        } else {
            lemma_mul_strict_inequality(0, i as int, pow2(1074) as int);
        }
    }
    if xb == 0 || si != sb {
        return if si {
            ValueOrder::Less
        } else {
            ValueOrder::Greater
        };
    }
    let mag: u64 = if i > 0 {
        i as u64
    } else if i == i64::MIN {
        0x8000_0000_0000_0000
    } else {
        (-i) as u64
    };
    assert(mag == if i >= 0 { i as int } else { -(i as int) });
    let m_ord = cmp_mag_int(mag, xb);
    if si {
        proof {
            vstd::arithmetic::mul::lemma_mul_unary_negation(mag as int, pow2(1074) as int);
            lemma_neg_cmp(mag as int * pow2(1074), m_key(xb));
        }
        match m_ord {
            ValueOrder::Less => ValueOrder::Greater,
            ValueOrder::Equal => ValueOrder::Equal,
            ValueOrder::Greater => ValueOrder::Less,
        }
    } else {
        m_ord
    }
}

/// Negation reverses a comparison.
proof fn lemma_neg_cmp(a: int, b: int)
    ensures
        cmp3(-a, -b) == crate::ord::flip3(cmp3(a, b)),
{
}

/// Equality of a machine integer and a number: mathematical equality,
/// never true of NaN.
pub fn int_number_equal(i: i64, b: Number) -> (r: bool)
    ensures
        r == int_num_equal(i as int, b.bits),
{
    proof {
        lemma_abs_bits(b.bits);
    }
    if b.bits & ABS_MASK > INF_BITS {
        return false;
    }
    matches!(cmp_int_number(i, b), ValueOrder::Equal)
}

} // verus!
