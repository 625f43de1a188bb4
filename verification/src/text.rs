//! Exact textual rendering of integers, pointer tokens, and numbers.

use vstd::prelude::*;
use vstd::string::StringExecFns;
use vstd::arithmetic::power2::{pow2, lemma_pow2_adds, lemma_pow2_strictly_increases, lemma2_to64};
use vstd::arithmetic::mul::lemma_mul_inequality;
use vstd::arithmetic::mul::lemma_mul_strict_inequality_converse;
use vstd::arithmetic::div_mod::lemma_fundamental_div_mod_converse;
use crate::num::{Number, abs_bits, sign_bit, is_nan, is_infinite, m_mant, m_pexp, exact_int};
use crate::num::{lemma_fields, lemma_mant_bounds, lemma_split_low_bits, lemma_abs_bits};
use crate::digits::{pow5, pow10, lemma_pow10_split, val_lsb, val_msb, digits_ok, u64_to_digits, double_digits, halve_step, push_digits_lsb, push_digits_msb, lemma_lsb_chars_are_dec, lemma_msb_chars_are_padded};

verus! {

/// The character for a decimal digit.
pub open spec fn digit_char(d: int) -> char {
    if d == 0 {
        '0'
    } else if d == 1 {
        '1'
    } else if d == 2 {
        '2'
    } else if d == 3 {
        '3'
    } else if d == 4 {
        '4'
    } else if d == 5 {
        '5'
    } else if d == 6 {
        '6'
    } else if d == 7 {
        '7'
    } else if d == 8 {
        '8'
    } else {
        '9'
    }
}

/// The character for a hexadecimal digit.
pub open spec fn hex_digit_char(d: int) -> char {
    if d < 10 {
        digit_char(d)
    } else if d == 10 {
        'a'
    } else if d == 11 {
        'b'
    } else if d == 12 {
        'c'
    } else if d == 13 {
        'd'
    } else if d == 14 {
        'e'
    } else {
        'f'
    }
}

/// Decimal text of a nonnegative integer, without a sign.
pub open spec fn dec_nat(n: int) -> Seq<char>
    decreases n,
{
    if n < 10 {
        seq![digit_char(n)]
    } else {
        dec_nat(n / 10).push(digit_char(n % 10))
    }
}

/// Decimal text of an integer, with a leading minus sign when negative.
pub open spec fn dec_int(i: int) -> Seq<char> {
    if i < 0 {
        seq!['-'] + dec_nat(-i)
    } else {
        dec_nat(i)
    }
}

/// Decimal text of a nonnegative integer, left-padded with zeros to a
/// fixed number of digits.
pub open spec fn dec_digits_padded(v: int, len: nat) -> Seq<char>
    decreases len,
{
    if len == 0 {
        Seq::<char>::empty()
    } else {
        dec_digits_padded(v / 10, (len - 1) as nat).push(digit_char(v % 10))
    }
}

/// How many times two divides a positive integer.
pub open spec fn twos_of(n: int) -> nat
    decreases n,
{
    if n < 1 || n % 2 == 1 {
        0
    } else {
        1 + twos_of(n / 2)
    }
}

/// Hexadecimal text of a nonnegative integer, without a prefix.
pub open spec fn hex_nat(n: int) -> Seq<char>
    decreases n,
{
    if n < 16 {
        seq![hex_digit_char(n)]
    } else {
        hex_nat(n / 16).push(hex_digit_char(n % 16))
    }
}

/// The text of a pointer token: hexadecimal with a `0x` prefix.
pub open spec fn pointer_text(n: int) -> Seq<char> {
    "0x"@ + hex_nat(n)
}

/// A one-character string for a decimal digit.
fn digit_str(d: u64) -> (r: &'static str)
    requires
        d < 10,
    ensures
        r@ == seq![digit_char(d as int)],
{
    proof {
        reveal_strlit("0");
        reveal_strlit("1");
        reveal_strlit("2");
        reveal_strlit("3");
        reveal_strlit("4");
        reveal_strlit("5");
        reveal_strlit("6");
        reveal_strlit("7");
        reveal_strlit("8");
        reveal_strlit("9");
    }
    match d {
        0 => "0",
        1 => "1",
        2 => "2",
        3 => "3",
        4 => "4",
        5 => "5",
        6 => "6",
        7 => "7",
        8 => "8",
        _ => "9",
    }
}

/// A one-character string for a decimal digit given as a byte.
pub(crate) fn digit_str_of(d: u8) -> (r: &'static str)
    requires
        d < 10,
    ensures
        r@ == seq![digit_char(d as int)],
{
    digit_str(d as u64)
}

/// A one-character string for a hexadecimal digit.
fn hex_digit_str(d: u64) -> (r: &'static str)
    requires
        d < 16,
    ensures
        r@ == seq![hex_digit_char(d as int)],
{
    proof {
        reveal_strlit("a");
        reveal_strlit("b");
        reveal_strlit("c");
        reveal_strlit("d");
        reveal_strlit("e");
        reveal_strlit("f");
    }
    if d < 10 {
        digit_str(d)
    } else {
        match d {
            10 => "a",
            11 => "b",
            12 => "c",
            13 => "d",
            14 => "e",
            _ => "f",
        }
    }
}

/// Appends the decimal text of a value.
pub fn push_dec_u64(n: u64, out: &mut String)
    ensures
        final(out)@ == old(out)@ + dec_nat(n as int),
    decreases n,
{
    if n >= 10 {
        push_dec_u64(n / 10, out);
    }
    out.append(digit_str(n % 10));
    assert(out@ =~= old(out)@ + dec_nat(n as int));
}

/// Appends the hexadecimal text of a value.
pub fn push_hex_u64(n: u64, out: &mut String)
    ensures
        final(out)@ == old(out)@ + hex_nat(n as int),
    decreases n,
{
    if n >= 16 {
        push_hex_u64(n / 16, out);
    }
    out.append(hex_digit_str(n % 16));
    assert(out@ =~= old(out)@ + hex_nat(n as int));
}

/// Appends the decimal text of a signed value, minus sign included.
pub fn push_dec_i64(i: i64, out: &mut String)
    ensures
        final(out)@ == old(out)@ + dec_int(i as int),
{
    proof {
        reveal_strlit("-");
    }
    if i >= 0 {
        push_dec_u64(i as u64, out);
    } else {
        out.append("-");
        let mag: u64 = if i == i64::MIN {
            0x8000_0000_0000_0000
        } else {
            (-i) as u64
        };
        push_dec_u64(mag, out);
        assert(out@ =~= old(out)@ + dec_int(i as int));
    }
}

/// The decimal text of a value, as a fresh string.
pub fn dec_u64_string(n: u64) -> (r: String)
    ensures
        r@ == dec_nat(n as int),
{
    let mut s = String::new();
    push_dec_u64(n, &mut s);
    assert(s@ =~= dec_nat(n as int));
    s
}

/// Appends the text of a pointer token: `0x` followed by hex digits.
pub fn push_pointer(n: usize, out: &mut String)
    ensures
        final(out)@ == old(out)@ + pointer_text(n as int),
{
    proof {
        reveal_strlit("0x");
    }
    out.append("0x");
    push_hex_u64(n as u64, out);
    assert(out@ =~= old(out)@ + pointer_text(n as int));
}

/// Display text of a number.
///
/// NaN and the infinities render by name.  A number denoting an integer in
/// machine range renders as that integer's decimal text.  Every other
/// finite number renders as its exact decimal expansion: the sign, the
/// decimal text of the integral part and, when the number has a fractional
/// part, a point followed by the exact fraction digits — the digits whose
/// value times `2^j2` is the reduced fraction numerator times `10^j2`.
///
/// This is a deliberate choice of decimal form: the usual display
/// shorthand — the shortest digit string that reads back as the same
/// number — can only be found with floating-point arithmetic, which
/// verified code here cannot perform, so the contract fixes the exact
/// expansion instead (one tenth renders with all 55 of its fraction
/// digits, not as `0.1`).
pub open spec fn number_text(x: u64) -> Seq<char> {
    if is_nan(x) {
        "NaN"@
    } else if is_infinite(x) {
        if sign_bit(x) {
            "-inf"@
        } else {
            "inf"@
        }
    } else {
        match exact_int(x) {
            Option::Some(i) => dec_int(i),
            Option::None => {
                let xb = abs_bits(x);
                let m = m_mant(xb);
                let p = m_pexp(xb);
                let head: Seq<char> = if sign_bit(x) {
                    seq!['-']
                } else {
                    Seq::empty()
                };
                if p >= 1074 {
                    head + dec_nat(m * pow2((p - 1074) as nat))
                } else {
                    let j = (1074 - p) as nat;
                    let q = m / (pow2(j) as int);
                    let rem = m % (pow2(j) as int);
                    let t = twos_of(rem);
                    let j2 = (j - t) as nat;
                    let rem2 = rem / (pow2(t) as int);
                    head + dec_nat(q) + seq!['.'] + dec_digits_padded(rem2 * pow5(j2), j2)
                }
            },
        }
    }
}

impl Number {
    /// Renders the number as its display text.
    pub fn display_text(&self) -> (r: String)
        ensures
            r@ == number_text(self.bits),
    {
        proof {
            reveal_strlit("NaN");
            reveal_strlit("inf");
            reveal_strlit("-inf");
            reveal_strlit("-");
        }
        let mut s = String::new();
        if self.is_nan() {
            s.append("NaN");
            return s;
        }
        if self.is_infinite() {
            if self.is_sign_negative() {
                s.append("-inf");
            } else {
                s.append("inf");
            }
            return s;
        }
        match self.as_exact_i64() {
            Option::Some(i) => {
                push_dec_i64(i, &mut s);
                assert(s@ =~= number_text(self.bits));
                s
            },
            Option::None => {
                proof {
                    reveal_strlit(".");
                    lemma_abs_bits(self.bits);
                    lemma_fields(abs_bits(self.bits));
                    lemma_mant_bounds(abs_bits(self.bits));
                    lemma2_to64();
                }
                if self.is_sign_negative() {
                    s.append("-");
                }
                let (m, p) = self.mant_and_pexp();
                let ghost xb = abs_bits(self.bits);
                proof {
                    // Finite but not an exact machine integer: the magnitude
                    // bits are nonzero and the mantissa is at least one.
                    assert(xb != 0);
                    assert(m >= 1);
                }
                if p >= 1074 {
                    // An integral magnitude too large for a machine word:
                    // take the mantissa's digits and double them once per
                    // binary exponent step.
                    let k: u64 = (p - 1074) as u64;
                    let mut digs = u64_to_digits(m);
                    let mut it: u64 = 0;
                    proof {
                        assert(pow2(0) == 1);
                    }
                    while it < k
                        invariant
                            0 <= it <= k,
                            digits_ok(digs@),
                            digs@.len() >= 1,
                            digs@.last() != 0,
                            val_lsb(digs@) == m * pow2(it as nat),
                            m >= 1,
                        decreases k - it,
                    {
                        digs = double_digits(digs);
                        proof {
                            lemma_pow2_adds(it as nat, 1);
                            lemma2_to64();
                            assert(pow2((it + 1) as nat) == pow2(it as nat) * 2);
                            assert(2 * (m * pow2(it as nat)) == m * (pow2(it as nat) * 2))
                                by (nonlinear_arith);
                        }
                        it += 1;
                    }
                    proof {
                        lemma_lsb_chars_are_dec(digs@);
                    }
                    push_digits_lsb(&digs, &mut s);
                    proof {
                        assert(s@ =~= number_text(self.bits));
                    }
                    s
                } else {
                    // A number with a fractional part: integral part, point,
                    // then the exact fraction digits of rem / 2^j.
                    let j: u64 = (1074 - p) as u64;
                    let ghost jn = j as nat;
                    let (q, rem): (u64, u64) = if j <= 52 {
                        proof {
                            vstd::bits::lemma_u64_pow2_no_overflow(j as nat);
                            vstd::bits::lemma_u64_shl_is_mul(1u64, j);
                            vstd::arithmetic::power2::lemma_pow2_pos(j as nat);
                        }
                        let mask: u64 = (1u64 << j) - 1;
                        let qq = m >> j;
                        let rr = m & mask;
                        proof {
                            lemma_split_low_bits(m, j, mask);
                            lemma_fundamental_div_mod_converse(
                                m as int,
                                pow2(jn) as int,
                                qq as int,
                                rr as int,
                            );
                        }
                        (qq, rr)
                    } else {
                        proof {
                            if 53 < j {
                                lemma_pow2_strictly_increases(53, jn);
                            }
                            lemma_fundamental_div_mod_converse(
                                m as int,
                                pow2(jn) as int,
                                0,
                                m as int,
                            );
                        }
                        (0, m)
                    };
                    proof {
                        assert(q == m as int / (pow2(jn) as int));
                        assert(rem == m as int % (pow2(jn) as int));
                        assert(rem != 0);
                    }
                    push_dec_u64(q, &mut s);
                    s.append(".");
                    // Strip the trailing zero bits of the fraction
                    // numerator; they carry no digits.
                    let mut r2: u64 = rem;
                    let mut t: u64 = 0;
                    proof {
                        assert(pow2(0) == 1);
                        assert(twos_of(rem as int) == 0 + twos_of(r2 as int));
                    }
                    while r2 % 2 == 0
                        invariant
                            r2 >= 1,
                            rem >= 1,
                            rem == r2 * pow2(t as nat),
                            twos_of(rem as int) == t + twos_of(r2 as int),
                            t <= 63,
                        decreases r2,
                    {
                        proof {
                            assert(twos_of(r2 as int) == 1 + twos_of((r2 / 2) as int));
                            lemma_pow2_adds(t as nat, 1);
                            lemma2_to64();
                            assert((r2 / 2) * pow2((t + 1) as nat) == ((r2 / 2) * 2) * pow2(
                                t as nat,
                            )) by (nonlinear_arith)
                                requires
                                    pow2((t + 1) as nat) == pow2(t as nat) * 2,
                            ;
                            vstd::arithmetic::power2::lemma_pow2_pos((t + 1) as nat);
                            if t + 1 >= 64 {
                                vstd::arithmetic::power2::lemma2_to64_rest();
                                if t + 1 > 64 {
                                    lemma_pow2_strictly_increases(64, (t + 1) as nat);
                                }
                                lemma_mul_inequality(
                                    1,
                                    (r2 / 2) as int,
                                    pow2((t + 1) as nat) as int,
                                );
                                assert(false);
                            }
                        }
                        r2 = r2 / 2;
                        t += 1;
                    }
                    proof {
                        assert(twos_of(r2 as int) == 0);
                        assert(t == twos_of(rem as int));
                        vstd::arithmetic::power2::lemma_pow2_pos(t as nat);
                        lemma_fundamental_div_mod_converse(
                            rem as int,
                            pow2(t as nat) as int,
                            r2 as int,
                            0,
                        );
                        assert(r2 == rem as int / (pow2(t as nat) as int));
                        // The stripped exponent stays below the scale: the
                        // numerator is under 2^j.
                        vstd::arithmetic::power2::lemma_pow2_pos(t as nat);
                        lemma_mul_inequality(1, r2 as int, pow2(t as nat) as int);
                        if t >= j {
                            if t > j {
                                lemma_pow2_strictly_increases(jn, t as nat);
                            }
                            assert(false);
                        }
                    }
                    let j2: u64 = j - t;
                    proof {
                        lemma_pow2_adds(j2 as nat, t as nat);
                        lemma_mul_strict_inequality_converse(
                            r2 as int,
                            pow2(j2 as nat) as int,
                            pow2(t as nat) as int,
                        );
                        assert(r2 < pow2(j2 as nat));
                    }
                    // Produce the exact fraction digits, one halving per
                    // remaining bit.
                    let ghost f0 = r2 as int;
                    let ghost mut low: int = 0;
                    let mut frac: Vec<u8> = Vec::new();
                    let mut done: u64 = 0;
                    proof {
                        assert(pow2(0) == 1 && pow5(0) == 1 && pow10(0) == 1);
                        assert(val_msb(Seq::<u8>::empty()) == 0);
                        assert(frac@ =~= Seq::<u8>::empty());
                    }
                    while done < j2
                        invariant
                            0 <= done <= j2,
                            digits_ok(frac@),
                            frac@.len() == done,
                            done >= 1 ==> frac@.last() == 5,
                            done == 0 ==> low == 0 && r2 == f0,
                            f0 >= 1,
                            f0 % 2 == 1,
                            f0 < pow2(j2 as nat),
                            f0 == r2 * pow2(done as nat) + low,
                            0 <= low < pow2(done as nat),
                            val_msb(frac@) == low * pow5(done as nat),
                            r2 >= 0,
                        decreases j2 - done,
                    {
                        let b: u64 = r2 % 2;
                        let ghost low0 = low;
                        let ghost r20 = r2 as int;
                        frac = halve_step(b, frac);
                        proof {
                            lemma_pow10_split(done as nat);
                            lemma_pow2_adds(done as nat, 1);
                            lemma2_to64();
                            assert(pow5((done + 1) as nat) == 5 * pow5(done as nat));
                            assert(pow2((done + 1) as nat) == pow2(done as nat) * 2);
                            low = low0 + b * pow2(done as nat);
                            assert(val_msb(frac@) == 5 * (b * pow10(done as nat) + low0 * pow5(
                                done as nat,
                            )));
                            assert(5 * (b * (pow2(done as nat) * pow5(done as nat)) + low0 * pow5(
                                done as nat,
                            )) == (low0 + b * pow2(done as nat)) * (5 * pow5(done as nat)))
                                by (nonlinear_arith);
                            assert(f0 == (r20 / 2) * (pow2(done as nat) * 2) + low)
                                by (nonlinear_arith)
                                requires
                                    f0 == r20 * pow2(done as nat) + low0,
                                    low == low0 + b * pow2(done as nat),
                                    b == r20 % 2,
                                    r20 >= 0,
                                    r20 % 2 + (r20 / 2) * 2 == r20,
                            ;
                            assert(low < pow2((done + 1) as nat)) by (nonlinear_arith)
                                requires
                                    low == low0 + b * pow2(done as nat),
                                    0 <= low0 < pow2(done as nat),
                                    b <= 1,
                                    pow2((done + 1) as nat) == pow2(done as nat) * 2,
                            ;
                        }
                        r2 = r2 / 2;
                        done += 1;
                    }
                    proof {
                        // Every bit is consumed: the remaining quotient is
                        // zero and the digits hold the whole numerator.
                        vstd::arithmetic::power2::lemma_pow2_pos(j2 as nat);
                        if r2 >= 1 {
                            lemma_mul_inequality(1, r2 as int, pow2(j2 as nat) as int);
                            assert(false);
                        }
                        assert(val_msb(frac@) == f0 * pow5(j2 as nat));
                        lemma_msb_chars_are_padded(frac@);
                    }
                    push_digits_msb(&frac, &mut s);
                    proof {
                        assert(s@ =~= number_text(self.bits));
                    }
                    s
                }
            },
        }
    }
}

/// Relies on std's `str::from_utf8`: it succeeds exactly on valid UTF-8
/// and yields the text those bytes encode.
#[verifier::external_body]
pub(crate) fn bytes_to_text(b: &Vec<u8>) -> (r: Option<String>)
    ensures
        r is Some <==> vstd::utf8::valid_utf8(b@),
        r is Some ==> r->Some_0@ == vstd::utf8::decode_utf8(b@),
{
    match core::str::from_utf8(b.as_slice()) {
        Ok(s) => Some(s.to_string()),
        Err(_) => None,
    }
}

} // verus!
