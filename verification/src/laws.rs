//! The engine's cross-cutting guarantees, stated and proved once: window
//! width, bar shape and monotonicity, engineering round-trip accuracy, and
//! chained unit conversion.

use vstd::prelude::*;
use vstd::math::abs;
use vstd::arithmetic::div_mod::{
    lemma_div_is_ordered, lemma_div_multiples_vanish, lemma_div_pos_is_pos,
    lemma_fundamental_div_mod,
};
use crate::fixed::{lemma_rhe_err, pow10, rhe, SCALE};
use crate::formatter::{bar_char, bar_level, bar_seq, str_window};
use crate::prefix::Prefix;
use crate::unit::Unit;

verus! {

/// Without rotation, the display window of text `t` holds exactly
/// `max(min(len(t), max_width), min_width)` characters.
pub proof fn lemma_str_window_length(t: Seq<char>, min_w: int, max_w: int)
    requires
        0 <= min_w <= max_w,
    ensures
        str_window(t, min_w, max_w).len() == vstd::math::max(
            vstd::math::min(t.len() as int, max_w),
            min_w,
        ),
{
}

/// Every cell of a bar has a fill level between empty and full.
pub proof fn lemma_bar_level_range(norm: int, width: int, i: int)
    requires
        0 <= norm <= SCALE as int,
    ensures
        0 <= bar_level(norm, width, i) <= 8,
{
    let x = norm * width - i * SCALE as int;
    let c = if x < 0 {
        0int
    } else if x > SCALE as int {
        SCALE as int
    } else {
        x
    };
    lemma_div_pos_is_pos(c * 8, SCALE as int);
    lemma_div_is_ordered(c * 8, 8 * SCALE as int, SCALE as int);
    lemma_div_multiples_vanish(8, SCALE as int);
}

/// The bar output has exactly `width` cells, each the glyph of its cell's
/// fill level, and every level lies between empty and full.
pub proof fn lemma_bar_shape(norm: int, width: int)
    requires
        0 <= norm <= SCALE as int,
        width >= 0,
    ensures
        bar_seq(norm, width).len() == width,
        forall|i: int|
            0 <= i < width ==> bar_seq(norm, width)[i] == bar_char(
                #[trigger] bar_level(norm, width, i),
            ),
        forall|i: int| 0 <= i < width ==> 0 <= #[trigger] bar_level(norm, width, i) <= 8,
{
    assert forall|i: int| 0 <= i < width implies 0 <= #[trigger] bar_level(norm, width, i)
        <= 8 by {
        lemma_bar_level_range(norm, width, i);
    }
}

/// The fill level never increases from left to right: a cell further right
/// is never fuller than one to its left.
pub proof fn lemma_bar_monotone(norm: int, width: int, i: int, j: int)
    requires
        0 <= norm <= SCALE as int,
        0 <= i <= j < width,
    ensures
        bar_level(norm, width, j) <= bar_level(norm, width, i),
{
    let xi = norm * width - i * SCALE as int;
    let xj = norm * width - j * SCALE as int;
    assert(i * SCALE as int <= j * SCALE as int) by (nonlinear_arith)
        requires
            0 <= i <= j,
            SCALE as int > 0,
    ;
    let ci = if xi < 0 {
        0int
    } else if xi > SCALE as int {
        SCALE as int
    } else {
        xi
    };
    let cj = if xj < 0 {
        0int
    } else if xj > SCALE as int {
        SCALE as int
    } else {
        xj
    };
    assert(cj <= ci);
    lemma_div_is_ordered(cj * 8, ci * 8, SCALE as int);
}

/// Engineering round trip: scale a nonnegative unit count by a prefix and
/// round the scaled value to `prec` decimal places (both half to even, as
/// the renderer does). Re-reading the rendered digits and re-applying the
/// prefix multiplier reconstructs the starting magnitude within half a step
/// of the last rendered digit plus half a fixed-point unit, both measured
/// at the prefix's scale.
pub proof fn lemma_eng_round_trip(units: int, p: Prefix, prec: int)
    requires
        units >= 0,
        1 <= prec <= 9,
    ensures
        ({
            let m1000 = p.mult1000_spec();
            let scaled = p.apply_spec(units);
            let d = pow10((9 - prec) as nat);
            let numeral = rhe(scaled, d) * d;
            2 * abs(numeral * m1000 - units * 1000) <= m1000 * (d + 1)
        }),
{
    let m1000 = p.mult1000_spec();
    let scaled = p.apply_spec(units);
    let d = pow10((9 - prec) as nat);
    let numeral = rhe(scaled, d) * d;
    crate::fixed::lemma_pow10_pos((9 - prec) as nat);
    lemma_rhe_err(units * 1000, m1000);
    lemma_rhe_err(scaled, d);
    // 2|scaled*m1000 - units*1000| <= m1000 and 2|numeral - scaled| <= d
    let e1 = scaled * m1000 - units * 1000;
    let e2 = numeral - scaled;
    assert(2 * abs(e1) <= m1000);
    assert(2 * abs(e2) <= d);
    assert(numeral * m1000 - units * 1000 == e2 * m1000 + e1) by (nonlinear_arith)
        requires
            e1 == scaled * m1000 - units * 1000,
            e2 == numeral - scaled,
    ;
    assert(2 * abs(e2 * m1000) <= d * m1000) by (nonlinear_arith)
        requires
            2 * abs(e2) <= d,
            m1000 >= 1,
    ;
    assert(2 * abs(e2 * m1000 + e1) <= d * m1000 + m1000) by (nonlinear_arith)
        requires
            2 * abs(e2 * m1000) <= d * m1000,
            2 * abs(e1) <= m1000,
    ;
    assert(d * m1000 + m1000 == m1000 * (d + 1)) by (nonlinear_arith);
}

/// A digit character carries its digit's value.
pub proof fn lemma_digit_char_value(d: int)
    requires
        0 <= d < 10,
    ensures
        crate::args::is_digit(crate::fixed::digit_char(d)),
        crate::args::digit_val(crate::fixed::digit_char(d)) == d,
{
    assert('0' as u32 == 48 && '1' as u32 == 49 && '2' as u32 == 50 && '3' as u32 == 51
        && '4' as u32 == 52 && '5' as u32 == 53 && '6' as u32 == 54 && '7' as u32 == 55
        && '8' as u32 == 56 && '9' as u32 == 57);
}

/// A rendered numeral re-parses to the number it was rendered from: the
/// renderer's digit sequence and the argument parser's digit semantics agree.
pub proof fn lemma_dec_seq_reparses(n: nat)
    ensures
        crate::args::all_digits(crate::fixed::dec_seq(n)),
        crate::args::digits_val(crate::fixed::dec_seq(n)) == n,
    decreases n,
{
    let s = crate::fixed::dec_seq(n);
    if n < 10 {
        lemma_digit_char_value(n as int);
        assert(s =~= seq![crate::fixed::digit_char(n as int)]);
        assert(s.drop_last() =~= Seq::<char>::empty());
        assert(crate::args::digits_val(Seq::<char>::empty()) == 0);
        assert(s.len() == 1);
        assert(crate::args::digits_val(s) == crate::args::digits_val(s.drop_last()) * 10
            + crate::args::digit_val(s.last()));
        assert(crate::args::digits_val(s) == n);
    } else {
        lemma_fundamental_div_mod(n as int, 10);
        lemma_digit_char_value((n % 10) as int);
        assert(n / 10 < n) by (nonlinear_arith)
            requires
                n >= 10,
        ;
        lemma_dec_seq_reparses(n / 10);
        assert(s.drop_last() =~= crate::fixed::dec_seq(n / 10));
        assert(s.last() == crate::fixed::digit_char((n % 10) as int));
        assert(crate::args::digits_val(s) == crate::args::digits_val(s.drop_last()) * 10
            + crate::args::digit_val(s.last()));
        assert(crate::args::digits_val(s.drop_last()) == n / 10);
        assert(crate::args::digit_val(s.last()) == n % 10);
        assert((n / 10) * 10 + n % 10 == n);
        assert(crate::args::digits_val(s) == n);
    }
}

/// Conversion within one dimension composes: when the first rescaling is
/// exact, converting through an intermediate unit equals converting
/// directly. (Across dimensions, `Unit::convert` fails instead; its own
/// contract says so.)
pub proof fn lemma_convert_chain(x: int, u0: Unit, a: Unit, b: Unit)
    requires
        u0.dimension_spec() == a.dimension_spec(),
        a.dimension_spec() == b.dimension_spec(),
        (x * u0.factor_spec()) % a.factor_spec() == 0,
    ensures
        a.convert_units_spec(u0.convert_units_spec(x, a), b) == u0.convert_units_spec(x, b),
{
    let fa = a.factor_spec();
    let f0 = u0.factor_spec();
    let y = u0.convert_units_spec(x, a);
    lemma_fundamental_div_mod(x * f0, fa);
    assert(y == (x * f0) / fa);
    assert(y * fa == x * f0) by (nonlinear_arith)
        requires
            x * f0 == fa * ((x * f0) / fa) + ((x * f0) % fa),
            (x * f0) % fa == 0,
            y == (x * f0) / fa,
    ;
}

} // verus!
