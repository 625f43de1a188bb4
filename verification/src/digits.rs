//! Exact decimal digit arithmetic.
//!
//! Rendering a double in decimal needs integers wider than a machine word:
//! a large magnitude is `mantissa * 2^k` with hundreds of digits, and the
//! exact fraction digits of `numerator / 2^j` can run to a thousand places.
//! Both are computed here on vectors of decimal digits: the integral part by
//! repeated doubling, the fractional part by long division by two, one bit
//! at a time; every step carries an exact value invariant.

use vstd::prelude::*;
use vstd::string::StringExecFns;
use vstd::arithmetic::power2::{pow2, lemma_pow2_adds, lemma2_to64};
use vstd::arithmetic::div_mod::{lemma_fundamental_div_mod_converse};
use crate::text::{digit_char, dec_nat, dec_digits_padded};

verus! {

/// Powers of ten.
pub open spec fn pow10(n: nat) -> int
    decreases n,
{
    if n == 0 {
        1
    } else {
        10 * pow10((n - 1) as nat)
    }
}

/// Powers of five.
pub open spec fn pow5(n: nat) -> int
    decreases n,
{
    if n == 0 {
        1
    } else {
        5 * pow5((n - 1) as nat)
    }
}

/// Ten to a power is two to it times five to it.
pub proof fn lemma_pow10_split(n: nat)
    ensures
        pow10(n) == pow2(n) * pow5(n),
        pow10(n) >= 1,
        pow5(n) >= 1,
    decreases n,
{
    if n == 0 {
        lemma2_to64();
    } else {
        lemma_pow10_split((n - 1) as nat);
        lemma_pow2_adds((n - 1) as nat, 1);
        lemma2_to64();
        assert(pow2(n) == pow2((n - 1) as nat) * 2);
        assert(10 * (pow2((n - 1) as nat) * pow5((n - 1) as nat)) == (pow2((n - 1) as nat) * 2) * (
        5 * pow5((n - 1) as nat))) by (nonlinear_arith);
    }
}

/// Every digit of a vector is below ten.
pub open spec fn digits_ok(d: Seq<u8>) -> bool {
    forall|i: int| 0 <= i < d.len() ==> (#[trigger] d[i]) < 10
}

/// Value of digits stored least significant first.
pub open spec fn val_lsb(d: Seq<u8>) -> int
    decreases d.len(),
{
    if d.len() == 0 {
        0
    } else {
        d[0] + 10 * val_lsb(d.drop_first())
    }
}

/// Value of digits stored most significant first.
pub open spec fn val_msb(d: Seq<u8>) -> int
    decreases d.len(),
{
    if d.len() == 0 {
        0
    } else {
        val_msb(d.drop_last()) * 10 + d.last()
    }
}

/// Appending a digit at the least significant end of an msb-first vector.
proof fn lemma_val_msb_push(d: Seq<u8>, x: u8)
    ensures
        val_msb(d.push(x)) == val_msb(d) * 10 + x,
{
    assert(d.push(x).drop_last() =~= d);
}

/// Appending a digit at the most significant end of an lsb-first vector.
proof fn lemma_val_lsb_push(d: Seq<u8>, x: u8)
    ensures
        val_lsb(d.push(x)) == val_lsb(d) + x * pow10(d.len()),
    decreases d.len(),
{
    lemma_pow10_split(d.len());
    if d.len() == 0 {
        assert(d.push(x) =~= seq![x]);
        assert(val_lsb(seq![x]) == x + 10 * val_lsb(seq![x].drop_first()));
        assert(seq![x].drop_first() =~= Seq::<u8>::empty());
    } else {
        assert(d.push(x).drop_first() =~= d.drop_first().push(x));
        lemma_val_lsb_push(d.drop_first(), x);
        lemma_pow10_split((d.len() - 1) as nat);
        assert(10 * (val_lsb(d.drop_first()) + x * pow10((d.len() - 1) as nat)) == 10 * val_lsb(
            d.drop_first(),
        ) + x * (10 * pow10((d.len() - 1) as nat))) by (nonlinear_arith);
    }
}

/// Bounds of an lsb-first vector's value from its digits.
proof fn lemma_val_lsb_bounds(d: Seq<u8>)
    requires
        digits_ok(d),
        d.len() >= 1,
    ensures
        d.last() * pow10((d.len() - 1) as nat) <= val_lsb(d) < (d.last() + 1) * pow10(
            (d.len() - 1) as nat,
        ),
        0 <= val_lsb(d),
    decreases d.len(),
{
    lemma_pow10_split((d.len() - 1) as nat);
    if d.len() == 1 {
        assert(d.drop_first() =~= Seq::<u8>::empty());
        assert(val_lsb(Seq::<u8>::empty()) == 0);
        assert(val_lsb(d) == d[0]);
        assert(d[0] < 10);
    } else {
        let rest = d.drop_first();
        assert forall|i: int| 0 <= i < rest.len() implies (#[trigger] rest[i]) < 10 by {
            assert(rest[i] == d[i + 1]);
        }
        lemma_val_lsb_bounds(rest);
        let pl = pow10((d.len() - 2) as nat);
        lemma_pow10_split((d.len() - 2) as nat);
        assert(pow10((d.len() - 1) as nat) == 10 * pl);
        assert(rest.last() == d.last());
        assert(d[0] < 10);
        assert(d.last() * (10 * pl) <= 10 * val_lsb(rest) && 10 * val_lsb(rest) + 10 <= (d.last()
            + 1) * (10 * pl)) by (nonlinear_arith)
            requires
                d.last() * pl <= val_lsb(rest) < (d.last() + 1) * pl,
                pl >= 1,
        ;
    }
}

/// The decimal digits of a machine integer, least significant first.
pub fn u64_to_digits(n: u64) -> (r: Vec<u8>)
    requires
        n >= 1,
    ensures
        digits_ok(r@),
        val_lsb(r@) == n,
        r@.len() >= 1,
        r@.last() != 0,
{
    let ghost orig = n as int;
    let mut n = n;
    let mut out: Vec<u8> = Vec::new();
    proof {
        lemma_pow10_split(0);
        assert(pow10(0) == 1);
        assert(val_lsb(Seq::<u8>::empty()) == 0);
        assert(out@ =~= Seq::<u8>::empty());
    }
    while n > 0
        invariant
            digits_ok(out@),
            orig == val_lsb(out@) + n * pow10(out@.len()),
            orig >= 1,
            n == 0 ==> out@.len() >= 1 && out@.last() != 0,
            n >= 1 || out@.len() >= 1,
        decreases n,
    {
        let d: u8 = (n % 10) as u8;
        let ghost before = out@;
        let ghost n0 = n as int;
        out.push(d);
        proof {
            lemma_val_lsb_push(before, d);
            lemma_pow10_split(before.len());
            let p = pow10(before.len());
            assert(pow10(before.len() + 1) == 10 * p);
            assert(n0 % 10 + (n0 / 10) * 10 == n0);
            assert(n0 * p == (n0 % 10) * p + (n0 / 10) * (10 * p)) by (nonlinear_arith)
                requires
                    n0 == n0 % 10 + (n0 / 10) * 10,
            ;
        }
        n = n / 10;
    }
    proof {
        assert(val_lsb(out@) == orig);
    }
    out
}

/// Doubles the value held in an lsb-first digit vector.
pub fn double_digits(d: Vec<u8>) -> (r: Vec<u8>)
    requires
        digits_ok(d@),
        d@.len() >= 1,
        d@.last() != 0,
    ensures
        digits_ok(r@),
        val_lsb(r@) == 2 * val_lsb(d@),
        r@.len() >= 1,
        r@.last() != 0,
{
    let n = d.len();
    let mut out: Vec<u8> = Vec::new();
    let mut carry: u8 = 0;
    let mut i: usize = 0;
    proof {
        assert(d@.subrange(0, 0) =~= Seq::<u8>::empty());
    }
    while i < n
        invariant
            digits_ok(d@),
            n == d@.len() >= 1,
            d@.last() != 0,
            0 <= i <= n,
            out@.len() == i,
            digits_ok(out@),
            carry <= 1,
            val_lsb(out@) + carry * pow10(i as nat) == 2 * val_lsb(d@.subrange(0, i as int)),
        decreases n - i,
    {
        let t: u8 = 2 * d[i] + carry;
        let ghost before = out@;
        let ghost carry0 = carry as int;
        out.push(t % 10);
        carry = t / 10;
        proof {
            lemma_val_lsb_push(before, t % 10);
            assert(d@.subrange(0, i + 1) =~= d@.subrange(0, i as int).push(d@[i as int]));
            lemma_val_lsb_push(d@.subrange(0, i as int), d@[i as int]);
            lemma_pow10_split(i as nat);
            let p = pow10(i as nat);
            assert(pow10((i + 1) as nat) == 10 * p);
            assert(val_lsb(out@) + (t / 10) * pow10((i + 1) as nat) == 2 * val_lsb(
                d@.subrange(0, i + 1),
            )) by (nonlinear_arith)
                requires
                    t == 2 * d@[i as int] + carry0,
                    0 <= t < 256,
                    t % 10 + (t / 10) * 10 == t,
                    pow10((i + 1) as nat) == 10 * p,
                    val_lsb(out@) == val_lsb(before) + (t % 10) * p,
                    val_lsb(before) + carry0 * p == 2 * val_lsb(d@.subrange(0, i as int)),
                    val_lsb(d@.subrange(0, i + 1)) == val_lsb(d@.subrange(0, i as int)) + d@[i
                        as int] * p,
            ;
        }
        i += 1;
    }
    proof {
        assert(d@.subrange(0, n as int) =~= d@);
    }
    if carry > 0 {
        let ghost before = out@;
        out.push(carry);
        proof {
            lemma_val_lsb_push(before, carry);
        }
        out
    } else {
        // Without a carry the top digit is twice the old one, modulo ten,
        // and the value bounds force it to be nonzero.
        proof {
            lemma_val_lsb_bounds(d@);
            lemma_val_lsb_bounds(out@);
            lemma_pow10_split((n - 1) as nat);
            let p = pow10((n - 1) as nat);
            if out@.last() == 0 {
                assert(val_lsb(out@) < 1 * p);
                assert(2 * val_lsb(d@) >= 2 * (d@.last() * p)) by (nonlinear_arith)
                    requires
                        val_lsb(d@) >= d@.last() * p,
                ;
                assert(2 * (d@.last() * p) >= 2 * p) by (nonlinear_arith)
                    requires
                        d@.last() >= 1,
                        p >= 1,
                ;
                assert(false);
            }
        }
        out
    }
}

/// One halving step of the exact fraction digits: with `f` the fraction the
/// msb-first digits `d` denote, produces the digits of `(b + f) / 2`.
pub fn halve_step(b: u64, d: Vec<u8>) -> (r: Vec<u8>)
    requires
        b <= 1,
        digits_ok(d@),
        d@.len() == 0 ==> b == 1,
        d@.len() >= 1 ==> d@.last() == 5,
    ensures
        digits_ok(r@),
        r@.len() == d@.len() + 1,
        r@.last() == 5,
        val_msb(r@) == 5 * (b * pow10(d@.len() as nat) + val_msb(d@)),
{
    let n = d.len();
    let mut out: Vec<u8> = Vec::new();
    let mut rem: u64 = b;
    let mut i: usize = 0;
    proof {
        assert(d@.subrange(0, 0) =~= Seq::<u8>::empty());
        lemma_pow10_split(0);
    }
    while i < n
        invariant
            b <= 1,
            digits_ok(d@),
            n == d@.len(),
            0 <= i <= n,
            out@.len() == i,
            digits_ok(out@),
            rem <= 1,
            2 * val_msb(out@) + rem == b * pow10(i as nat) + val_msb(d@.subrange(0, i as int)),
        decreases n - i,
    {
        let v: u64 = rem * 10 + d[i] as u64;
        let ghost before = out@;
        let ghost rem0 = rem as int;
        out.push((v / 2) as u8);
        rem = v % 2;
        proof {
            lemma_val_msb_push(before, (v / 2) as u8);
            assert(d@.subrange(0, i + 1) =~= d@.subrange(0, i as int).push(d@[i as int]));
            lemma_val_msb_push(d@.subrange(0, i as int), d@[i as int]);
            lemma_pow10_split(i as nat);
            let p = pow10(i as nat);
            assert(2 * (val_msb(before) * 10 + (v / 2)) + (v % 2) == (2 * val_msb(before) + rem0)
                * 10 + d@[i as int]) by (nonlinear_arith)
                requires
                    v == rem0 * 10 + d@[i as int],
                    v < 20,
            ;
        }
        i += 1;
    }
    proof {
        assert(d@.subrange(0, n as int) =~= d@);
        // The dividend is odd: either it is the single bit one, or its last
        // digit is five.
        if n == 0 {
            assert(val_msb(d@) == 0);
            assert(b == 1 && pow10(0) == 1);
        } else {
            let pl = pow10((n - 1) as nat);
            lemma_pow10_split((n - 1) as nat);
            assert(pow10(n as nat) == 10 * pl);
            assert(b * (10 * pl) == 2 * (b * (5 * pl))) by (nonlinear_arith);
            assert(val_msb(d@) == val_msb(d@.drop_last()) * 10 + 5);
        }
        assert(rem == 1);
    }
    let ghost before = out@;
    out.push(5);
    proof {
        lemma_val_msb_push(before, 5);
    }
    out
}

/// The characters of an msb-first digit vector.
pub open spec fn msb_chars(d: Seq<u8>) -> Seq<char> {
    Seq::new(d.len(), |i: int| digit_char(d[i] as int))
}

/// The characters of an lsb-first digit vector, most significant first.
pub open spec fn lsb_chars(d: Seq<u8>) -> Seq<char> {
    Seq::new(d.len(), |i: int| digit_char(d[d.len() - 1 - i] as int))
}

/// A digit vector with a nonzero leading digit renders as the decimal text
/// of its value.
pub proof fn lemma_lsb_chars_are_dec(d: Seq<u8>)
    requires
        digits_ok(d),
        d.len() >= 1,
        d.last() != 0,
    ensures
        lsb_chars(d) == dec_nat(val_lsb(d)),
    decreases d.len(),
{
    lemma_val_lsb_bounds(d);
    if d.len() == 1 {
        assert(lsb_chars(d) =~= seq![digit_char(d[0] as int)]);
    } else {
        let rest = d.drop_first();
        assert(rest.last() == d.last());
        lemma_lsb_chars_are_dec(rest);
        lemma_val_lsb_bounds(rest);
        lemma_pow10_split((rest.len() - 1) as nat);
        assert(rest.last() * pow10((rest.len() - 1) as nat) >= 1) by (nonlinear_arith)
            requires
                rest.last() >= 1,
                pow10((rest.len() - 1) as nat) >= 1,
        ;
        let v = val_lsb(d);
        lemma_fundamental_div_mod_converse(v, 10, val_lsb(rest), d[0] as int);
        assert(v >= 10);
        assert(lsb_chars(d) =~= dec_nat(val_lsb(rest)).push(digit_char(d[0] as int)));
    }
}

/// An msb-first digit vector renders as the padded decimal text of its
/// value at its own length.
pub proof fn lemma_msb_chars_are_padded(d: Seq<u8>)
    requires
        digits_ok(d),
    ensures
        msb_chars(d) == dec_digits_padded(val_msb(d), d.len() as nat),
    decreases d.len(),
{
    if d.len() > 0 {
        let front = d.drop_last();
        lemma_msb_chars_are_padded(front);
        lemma_val_msb_nonneg(front);
        let v = val_msb(d);
        lemma_fundamental_div_mod_converse(v, 10, val_msb(front), d.last() as int);
        assert(msb_chars(d) =~= msb_chars(front).push(digit_char(d.last() as int)));
    }
}

/// Digit values are nonnegative.
proof fn lemma_val_msb_nonneg(d: Seq<u8>)
    requires
        digits_ok(d),
    ensures
        val_msb(d) >= 0,
    decreases d.len(),
{
    if d.len() > 0 {
        lemma_val_msb_nonneg(d.drop_last());
    }
}

/// Appends an lsb-first digit vector as text, most significant digit first.
pub fn push_digits_lsb(d: &Vec<u8>, out: &mut String)
    requires
        digits_ok(d@),
    ensures
        final(out)@ == old(out)@ + lsb_chars(d@),
{
    let n = d.len();
    let mut i: usize = 0;
    while i < n
        invariant
            digits_ok(d@),
            n == d@.len(),
            0 <= i <= n,
            out@ == old(out)@ + lsb_chars(d@).subrange(0, i as int),
        decreases n - i,
    {
        out.append(crate::text::digit_str_of(d[n - 1 - i]));
        proof {
            assert(out@ =~= old(out)@ + lsb_chars(d@).subrange(0, i + 1));
        }
        i += 1;
    }
    proof {
        assert(lsb_chars(d@).subrange(0, d@.len() as int) =~= lsb_chars(d@));
        assert(out@ =~= old(out)@ + lsb_chars(d@));
    }
}

/// Appends an msb-first digit vector as text, in place.
pub fn push_digits_msb(d: &Vec<u8>, out: &mut String)
    requires
        digits_ok(d@),
    ensures
        final(out)@ == old(out)@ + msb_chars(d@),
{
    let n = d.len();
    let mut i: usize = 0;
    while i < n
        invariant
            digits_ok(d@),
            n == d@.len(),
            0 <= i <= n,
            out@ == old(out)@ + msb_chars(d@).subrange(0, i as int),
        decreases n - i,
    {
        out.append(crate::text::digit_str_of(d[i]));
        proof {
            assert(out@ =~= old(out)@ + msb_chars(d@).subrange(0, i + 1));
        }
        i += 1;
    }
    proof {
        assert(msb_chars(d@).subrange(0, d@.len() as int) =~= msb_chars(d@));
        assert(out@ =~= old(out)@ + msb_chars(d@));
    }
}

} // verus!
