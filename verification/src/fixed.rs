//! Decimal fixed-point magnitudes. A `Fixed` holds a signed count of
//! billionths, so every magnitude the engine handles is an exact decimal with
//! nine fractional digits. All rounding is convergent (round half to even).

use vstd::prelude::*;
use vstd::arithmetic::div_mod::{lemma_fundamental_div_mod, lemma_fundamental_div_mod_converse};
use vstd::math::abs;

verus! {

/// Number of fixed-point units per 1.0: nine decimal digits of fraction.
pub const SCALE: i128 = 1_000_000_000;

/// Bound on the unit count of a well-formed `Fixed`: magnitudes up to 10^19.
pub const UNITS_MAX: i128 = 10_000_000_000_000_000_000_000_000_000;

/// A decimal fixed-point number: the real value `units / SCALE`.
#[derive(Clone, Copy, Debug, PartialEq, Eq, Structural)]
pub struct Fixed {
    pub units: i128,
}

/// Round `a / d` (for `d > 0`) to the nearest integer, ties to even.
pub open spec fn rhe(a: int, d: int) -> int {
    let q = a / d;
    let r = a % d;
    if 2 * r < d {
        q
    } else if 2 * r > d {
        q + 1
    } else if q % 2 == 0 {
        q
    } else {
        q + 1
    }
}

/// Convergent rounding lands within half of the divisor of the exact value.
pub proof fn lemma_rhe_err(a: int, d: int)
    requires
        d > 0,
    ensures
        2 * abs(rhe(a, d) * d - a) <= d,
{
    lemma_fundamental_div_mod(a, d);
    let q = a / d;
    let r = a % d;
    assert(a == d * q + r);
    assert((q + 1) * d == q * d + d) by (nonlinear_arith);
    assert(q * d == d * q) by (nonlinear_arith);
}

/// A quotient whose numerator is less than half the divisor rounds to zero.
pub proof fn lemma_rhe_small(a: int, d: int)
    requires
        d > 0,
        2 * abs(a) < d,
    ensures
        rhe(a, d) == 0,
{
    if a >= 0 {
        lemma_fundamental_div_mod_converse(a, d, 0, a);
    } else {
        assert(a == (-1) * d + (d + a)) by (nonlinear_arith);
        lemma_fundamental_div_mod_converse(a, d, -1, d + a);
    }
}

/// Convergent rounding is symmetric about zero.
pub proof fn lemma_rhe_neg(a: int, d: int)
    requires
        d > 0,
    ensures
        rhe(-a, d) == -rhe(a, d),
{
    lemma_fundamental_div_mod(a, d);
    let q = a / d;
    let r = a % d;
    assert(a == d * q + r);
    if r == 0 {
        assert(-a == (-q) * d + 0) by (nonlinear_arith)
            requires
                a == d * q,
        ;
        lemma_fundamental_div_mod_converse(-a, d, -q, 0);
    } else {
        assert(-a == (-q - 1) * d + (d - r)) by (nonlinear_arith)
            requires
                a == d * q + r,
        ;
        lemma_fundamental_div_mod_converse(-a, d, -q - 1, d - r);
    }
}

/// The rounded quotient is no larger in magnitude than `a` itself
/// (for a positive divisor and nonnegative `a`).
pub proof fn lemma_rhe_bound(a: int, d: int)
    requires
        d > 0,
        a >= 0,
    ensures
        0 <= rhe(a, d) <= a / d + 1,
        a / d <= a,
{
    lemma_fundamental_div_mod(a, d);
    assert(a / d <= a && a / d >= 0) by (nonlinear_arith)
        requires
            d > 0,
            a >= 0,
            a == d * (a / d) + a % d,
            0 <= a % d < d,
    ;
}

/// Round `m / d` to the nearest integer, ties to even, on magnitudes.
pub fn rhe_u128(m: u128, d: u128) -> (q: u128)
    requires
        0 < d <= 0x7fff_ffff_ffff_ffff_ffff_ffff_ffff_ffff,
        m < 0xffff_ffff_ffff_ffff_ffff_ffff_ffff_ffff,
    ensures
        q as int == rhe(m as int, d as int),
{
    let q0 = m / d;
    let r = m % d;
    proof {
        lemma_rhe_bound(m as int, d as int);
    }
    if 2 * r < d {
        q0
    } else if 2 * r > d {
        q0 + 1
    } else if q0 % 2 == 0 {
        q0
    } else {
        q0 + 1
    }
}

/// Round `a / d` to the nearest integer, ties to even, on signed values.
pub fn rhe_i128(a: i128, d: i128) -> (q: i128)
    requires
        0 < d,
        -0x7fff_ffff_ffff_ffff_ffff_ffff_ffff_fffe <= a <= 0x7fff_ffff_ffff_ffff_ffff_ffff_ffff_fffe,
    ensures
        q as int == rhe(a as int, d as int),
{
    if a >= 0 {
        let q = rhe_u128(a as u128, d as u128);
        proof {
            lemma_rhe_bound(a as int, d as int);
        }
        q as i128
    } else {
        let q = rhe_u128((-a) as u128, d as u128);
        proof {
            lemma_rhe_bound(-(a as int), d as int);
            lemma_rhe_neg(-(a as int), d as int);
        }
        -(q as i128)
    }
}

/// Floor of `a / d` for `d > 0`, i.e. the mathematical (Euclidean) quotient.
pub fn floor_div_i128(a: i128, d: i128) -> (q: i128)
    requires
        0 < d,
        -0x7fff_ffff_ffff_ffff_ffff_ffff_ffff_fffe <= a <= 0x7fff_ffff_ffff_ffff_ffff_ffff_ffff_fffe,
    ensures
        q as int == a as int / d as int,
{
    if a >= 0 {
        proof {
            lemma_rhe_bound(a as int, d as int);
        }
        ((a as u128) / (d as u128)) as i128
    } else {
        let m = (-a) as u128;
        let du = d as u128;
        let qt = m / du;
        let r = m % du;
        proof {
            lemma_fundamental_div_mod(m as int, du as int);
            if r == 0 {
                assert(a as int == (-(qt as int)) * (d as int) + 0) by (nonlinear_arith)
                    requires
                        m as int == du as int * (qt as int),
                        a as int == -(m as int),
                        d as int == du as int,
                ;
                lemma_fundamental_div_mod_converse(a as int, d as int, -(qt as int), 0);
            } else {
                assert(a as int == (-(qt as int) - 1) * (d as int) + (d as int - r as int))
                    by (nonlinear_arith)
                    requires
                        m as int == du as int * (qt as int) + r as int,
                        a as int == -(m as int),
                        d as int == du as int,
                ;
                lemma_fundamental_div_mod_converse(
                    a as int,
                    d as int,
                    -(qt as int) - 1,
                    d as int - r as int,
                );
            }
        }
        if r == 0 {
            -(qt as i128)
        } else {
            -(qt as i128) - 1
        }
    }
}

/// The character for one decimal digit.
pub open spec fn digit_char(d: int) -> char {
    if d == 0 {
        '0'
    } else if d == 1 {
        '1'
    } else if d == 2 {
        '2'
    } else if d == 3 {
        '3'
    } else if d == 4 {
        '4'
    } else if d == 5 {
        '5'
    } else if d == 6 {
        '6'
    } else if d == 7 {
        '7'
    } else if d == 8 {
        '8'
    } else {
        '9'
    }
}

/// The decimal numeral of a nonnegative integer, most significant digit first.
pub open spec fn dec_seq(n: nat) -> Seq<char>
    decreases n,
{
    if n < 10 {
        seq![digit_char(n as int)]
    } else {
        dec_seq(n / 10).push(digit_char((n % 10) as int))
    }
}

/// The decimal numeral of a nonnegative integer, zero-padded on the left to
/// exactly `w` digits (truncating high digits that do not fit).
pub open spec fn dec_seq_pad(n: nat, w: nat) -> Seq<char>
    decreases w,
{
    if w == 0 {
        Seq::empty()
    } else {
        dec_seq_pad(n / 10, (w - 1) as nat).push(digit_char((n % 10) as int))
    }
}

/// The decimal numeral of a (possibly negative) integer.
pub open spec fn int_seq(i: int) -> Seq<char> {
    if i < 0 {
        seq!['-'] + dec_seq((-i) as nat)
    } else {
        dec_seq(i as nat)
    }
}

/// Number of digits of the decimal numeral of `n`.
pub open spec fn dec_len(n: nat) -> nat
    decreases n,
{
    if n < 10 {
        1
    } else {
        1 + dec_len(n / 10)
    }
}

/// Ten to the power `e`.
pub open spec fn pow10(e: nat) -> int
    decreases e,
{
    if e == 0 {
        1
    } else {
        10 * pow10((e - 1) as nat)
    }
}

/// The character for one decimal digit.
pub fn digit_char_x(d: u128) -> (c: char)
    requires
        d < 10,
    ensures
        c == digit_char(d as int),
{
    if d == 0 {
        '0'
    } else if d == 1 {
        '1'
    } else if d == 2 {
        '2'
    } else if d == 3 {
        '3'
    } else if d == 4 {
        '4'
    } else if d == 5 {
        '5'
    } else if d == 6 {
        '6'
    } else if d == 7 {
        '7'
    } else if d == 8 {
        '8'
    } else {
        '9'
    }
}

/// Append the decimal numeral of `n` to an output buffer.
pub fn push_dec(out: &mut Vec<char>, n: u128)
    ensures
        final(out)@ == old(out)@ + dec_seq(n as nat),
    decreases n,
{
    if n >= 10 {
        proof {
            lemma_rhe_bound(n as int, 10);
            assert(n as int / 10 < n as int) by (nonlinear_arith)
                requires
                    n >= 10,
            ;
        }
        push_dec(out, n / 10);
    }
    out.push(digit_char_x(n % 10));
    proof {
        assert(out@ =~= old(out)@ + dec_seq(n as nat));
    }
}

/// Append the decimal numeral of `n`, zero-padded on the left to exactly
/// `w` digits, to an output buffer.
pub fn push_dec_pad(out: &mut Vec<char>, n: u128, w: usize)
    ensures
        final(out)@ == old(out)@ + dec_seq_pad(n as nat, w as nat),
    decreases w,
{
    if w > 0 {
        push_dec_pad(out, n / 10, w - 1);
        out.push(digit_char_x(n % 10));
    }
    proof {
        assert(out@ =~= old(out)@ + dec_seq_pad(n as nat, w as nat));
    }
}

/// Powers of ten are positive.
pub proof fn lemma_pow10_pos(e: nat)
    ensures
        pow10(e) >= 1,
    decreases e,
{
    if e > 0 {
        lemma_pow10_pos((e - 1) as nat);
    }
}

/// Powers of ten grow with the exponent.
pub proof fn lemma_pow10_mono(a: nat, b: nat)
    requires
        a <= b,
    ensures
        pow10(a) <= pow10(b),
    decreases b,
{
    if a < b {
        lemma_pow10_mono(a, (b - 1) as nat);
        lemma_pow10_pos((b - 1) as nat);
    }
}

/// Powers of ten multiply by adding exponents.
pub proof fn lemma_pow10_add(a: nat, b: nat)
    ensures
        pow10(a) * pow10(b) == pow10((a + b) as nat),
    decreases b,
{
    if b == 0 {
    } else {
        lemma_pow10_add(a, (b - 1) as nat);
        assert(pow10(a) * (10 * pow10((b - 1) as nat)) == 10 * (pow10(a) * pow10(
            (b - 1) as nat,
        ))) by (nonlinear_arith);
    }
}

/// A number below ten to the `k` has at most `k` digits.
pub proof fn lemma_dec_len_le(n: nat, k: nat)
    requires
        k >= 1,
        n < pow10(k),
    ensures
        dec_len(n) <= k,
    decreases k,
{
    if n >= 10 {
        assert(pow10(k) == 10 * pow10((k - 1) as nat));
        if k == 1 {
            assert(pow10(0) == 1);
            assert(false);
        }
        assert(n / 10 < pow10((k - 1) as nat)) by (nonlinear_arith)
            requires
                n < 10 * pow10((k - 1) as nat),
        ;
        lemma_dec_len_le(n / 10, (k - 1) as nat);
    }
}

/// Number of digits of the decimal numeral of `n`.
pub fn num_digits(n: u128) -> (r: usize)
    ensures
        r as nat == dec_len(n as nat),
        1 <= r <= 39,
    decreases n,
{
    proof {
        reveal_with_fuel(pow10, 40);
        assert(pow10(39) > 0xffff_ffff_ffff_ffff_ffff_ffff_ffff_ffff);
        lemma_dec_len_le(n as nat, 39);
    }
    if n < 10 {
        1
    } else {
        proof {
            assert(n as int / 10 < n as int) by (nonlinear_arith)
                requires
                    n >= 10,
            ;
        }
        1 + num_digits(n / 10)
    }
}

impl Fixed {
    /// The unit count stays within the range every entry point accepts.
    pub open spec fn wf(self) -> bool {
        abs(self.units as int) <= UNITS_MAX
    }

    /// The unit count stays within a given looser bound.
    pub open spec fn bounded(self, b: int) -> bool {
        abs(self.units as int) <= b
    }

    /// The exact integer `v`, as a fixed-point number.
    pub fn from_i64(v: i64) -> (r: Fixed)
        ensures
            r.units as int == v as int * SCALE,
            r.wf(),
    {
        Fixed { units: (v as i128) * SCALE }
    }

    /// The fixed-point value truncated toward zero to whole milliseconds
    /// when read as a count of seconds, saturating at the largest count.
    pub fn to_millis_saturating(&self) -> (r: u64)
        requires
            self.units >= 0,
            self.wf(),
        ensures
            r as int == vstd::math::min(self.units as int / 1_000_000, u64::MAX as int),
    {
        let q = floor_div_i128(self.units, 1_000_000);
        if q > u64::MAX as i128 {
            u64::MAX
        } else {
            q as u64
        }
    }
}

} // verus!
