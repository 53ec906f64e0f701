//! The formatter implementations and their construction from a name plus
//! keyword arguments: `str` (width clamp, padding, rotation, escaping),
//! `bar` (block-glyph bar), `eng` (engineering notation), `fix` (reserved)
//! and the flag formatter.

use vstd::prelude::*;
use vstd::math::abs;
use vstd::arithmetic::div_mod::{
    lemma_div_is_ordered, lemma_div_multiples_vanish, lemma_div_pos_is_pos,
};
use crate::args::{
    Arg, fixed_units_of, is_uint_str, parse_bool, parse_fixed, parse_usize, uint_val,
};
use crate::error::{ConfigError, FormatError};
use crate::escape::{escape_into, escaped};
use crate::fixed::{
    dec_len, dec_seq, dec_seq_pad, int_seq, lemma_rhe_bound, num_digits, pow10, push_dec,
    push_dec_pad, rhe, rhe_u128, floor_div_i128, Fixed, SCALE,
};
use crate::prefix::Prefix;
use crate::text::{chars_to_string, str_eq, to_chars};
use crate::unit::{unit_of_str, Unit};
use crate::value::Value;

verus! {

/// A formatter renders one value into a display string and may suggest a
/// re-render interval in milliseconds.
pub trait Formatter {
    /// What this formatter guarantees of one render result.
    spec fn format_ens(&self, val: Value, r: Result<String, FormatError>) -> bool;

    /// What this formatter guarantees of its re-render hint.
    spec fn interval_ens(&self, r: Option<u64>) -> bool;

    /// Render one value.
    fn format(&self, val: &Value) -> (r: Result<String, FormatError>)
        requires
            val.wf(),
        ensures
            self.format_ens(*val, r),
    ;

    /// The interval at which the caller should re-render without a new
    /// value, in milliseconds, if any.
    fn interval(&self) -> (r: Option<u64>)
        ensures
            self.interval_ens(r),
    ;
}

/// Text padded on the right with spaces to at least `min_w` characters.
pub open spec fn space_pad(t: Seq<char>, min_w: int) -> Seq<char> {
    if t.len() >= min_w {
        t
    } else {
        t + Seq::new((min_w - t.len()) as nat, |i: int| ' ')
    }
}

/// Text truncated to at most `max_w` characters.
pub open spec fn clip(t: Seq<char>, max_w: int) -> Seq<char> {
    if t.len() <= max_w {
        t
    } else {
        t.take(max_w)
    }
}

/// The non-rotating display window: pad to the minimum width, then truncate
/// to the maximum width.
pub open spec fn str_window(t: Seq<char>, min_w: int, max_w: int) -> Seq<char> {
    clip(space_pad(t, min_w), max_w)
}

/// The rotating display window: the text plus a `|` separator read as a ring
/// buffer, `max_w` characters starting at `step`.
pub open spec fn rotated(t: Seq<char>, max_w: int, step: int) -> Seq<char> {
    let buf = t.push('|');
    let w1 = vstd::math::min(max_w, buf.len() - step);
    buf.subrange(step, step + w1) + t.take(vstd::math::min(max_w - w1, t.len() as int))
}

/// The `str` formatter: width clamping, padding, markup escaping, and
/// time-driven rotation of overflowing text.
#[derive(Debug)]
pub struct StrFormatter {
    pub min_width: usize,
    pub max_width: usize,
    pub pango: bool,
    pub rot_interval_ms: Option<u64>,
    pub init_time: Option<std::time::Instant>,
}

impl StrFormatter {
    /// Whether text of `len` characters rotates under this configuration.
    pub open spec fn rotates(self, len: int) -> bool {
        &&& self.rot_interval_ms matches Some(ms) && ms >= 1
        &&& self.init_time is Some
        &&& len > self.max_width
        &&& len < usize::MAX
    }

    /// The rotation phase for text of `len` characters after `elapsed`
    /// milliseconds.
    pub open spec fn rot_step(self, len: int, elapsed: int) -> int {
        (elapsed / (self.rot_interval_ms->Some_0 as int)) % (len + 1)
    }

    /// What formatting text `t` yields at a given elapsed reading.
    pub open spec fn text_spec(self, t: Seq<char>, elapsed: int) -> Seq<char> {
        if self.rotates(t.len() as int) {
            escaped(rotated(t, self.max_width as int, self.rot_step(t.len() as int, elapsed)))
        } else if self.pango {
            str_window(t, self.min_width as int, self.max_width as int)
        } else {
            escaped(str_window(t, self.min_width as int, self.max_width as int))
        }
    }

    /// Render one value at a given elapsed-milliseconds reading: text is
    /// windowed (or rotated) and escaped, icons pass through untouched,
    /// numbers and flags are rejected.
    pub fn format_at(&self, val: &Value, elapsed_ms: u64) -> (r: Result<String, FormatError>)
        ensures
            match *val {
                Value::Text(t) => r matches Ok(out) && out@ == self.text_spec(t@, elapsed_ms as int),
                Value::Icon(i) => r matches Ok(out) && out@ == i@,
                _ => r == Err::<String, FormatError>(FormatError::TypeMismatch),
            },
    {
        match val {
            Value::Text(text) => {
                let cs = to_chars(text.as_str());
                let len = cs.len();
                let mut rot_ms: u64 = 0;
                if let Some(ms) = self.rot_interval_ms {
                    rot_ms = ms;
                }
                if rot_ms >= 1 && self.init_time.is_some() && len > self.max_width && len
                    < usize::MAX {
                    // rotating path
                    let modulus = (len as u64) + 1;
                    let step64 = (elapsed_ms / rot_ms) % modulus;
                    let step = step64 as usize;
                    let ghost buf = text@.push('|');
                    let w1: usize = if self.max_width <= len + 1 - step {
                        self.max_width
                    } else {
                        len + 1 - step
                    };
                    let mut w: Vec<char> = Vec::new();
                    let mut i: usize = 0;
                    while i < w1
                        invariant
                            cs@ == text@,
                            len == text@.len(),
                            buf == text@.push('|'),
                            step + w1 <= len + 1,
                            0 <= i <= w1,
                            w@ == buf.subrange(step as int, step as int + i),
                        decreases w1 - i,
                    {
                        let idx = step + i;
                        if idx < len {
                            w.push(cs[idx]);
                        } else {
                            w.push('|');
                        }
                        proof {
                            assert(w@ =~= buf.subrange(step as int, step as int + i + 1));
                        }
                        i += 1;
                    }
                    let rest: usize = self.max_width - w1;
                    let r2: usize = if rest <= len {
                        rest
                    } else {
                        len
                    };
                    let mut j: usize = 0;
                    while j < r2
                        invariant
                            cs@ == text@,
                            len == text@.len(),
                            0 <= j <= r2 <= len,
                            w@ == buf.subrange(step as int, step as int + w1 as int) + text@.take(
                                j as int,
                            ),
                            buf == text@.push('|'),
                            step + w1 <= len + 1,
                        decreases r2 - j,
                    {
                        w.push(cs[j]);
                        proof {
                            assert(w@ =~= buf.subrange(step as int, step as int + w1 as int)
                                + text@.take(j as int + 1));
                        }
                        j += 1;
                    }
                    let mut out: Vec<char> = Vec::new();
                    escape_into(&w, &mut out);
                    proof {
                        assert(w@ =~= rotated(text@, self.max_width as int, step as int));
                    }
                    Ok(chars_to_string(&out))
                } else {
                    // plain window: truncate, then pad
                    let k1: usize = if len <= self.max_width {
                        len
                    } else {
                        self.max_width
                    };
                    let mut w: Vec<char> = Vec::new();
                    let mut i: usize = 0;
                    while i < k1
                        invariant
                            cs@ == text@,
                            len == text@.len(),
                            0 <= i <= k1 <= len,
                            w@ == text@.take(i as int),
                        decreases k1 - i,
                    {
                        w.push(cs[i]);
                        proof {
                            assert(w@ =~= text@.take(i as int + 1));
                        }
                        i += 1;
                    }
                    let total: usize = if len >= self.min_width {
                        k1
                    } else if self.min_width <= self.max_width {
                        self.min_width
                    } else {
                        self.max_width
                    };
                    proof {
                        assert(w@.take(k1 as int) =~= text@.take(k1 as int));
                    }
                    while w.len() < total
                        invariant
                            total <= usize::MAX,
                            k1 <= w@.len() <= total,
                            w@.take(k1 as int) == text@.take(k1 as int),
                            forall|m: int| k1 <= m < w@.len() ==> w@[m] == ' ',
                        decreases total - w.len(),
                    {
                        w.push(' ');
                        proof {
                            assert(w@.take(k1 as int) =~= text@.take(k1 as int));
                        }
                    }
                    proof {
                        let t = text@;
                        let minw = self.min_width as int;
                        let maxw = self.max_width as int;
                        let win = str_window(t, minw, maxw);
                        assert(w@.len() == total as int);
                        assert(win.len() == total as int);
                        assert forall|q: int| 0 <= q < win.len() implies w@[q] == win[q] by {
                            if q < k1 {
                                assert(w@.take(k1 as int)[q] == w@[q]);
                                assert(t.take(k1 as int)[q] == t[q]);
                            }
                        }
                        assert(w@ =~= win);
                    }
                    if self.pango {
                        Ok(chars_to_string(&w))
                    } else {
                        let mut out: Vec<char> = Vec::new();
                        escape_into(&w, &mut out);
                        Ok(chars_to_string(&out))
                    }
                }
            },
            Value::Icon(icon) => Ok(icon.clone()),
            Value::Number { .. } => Err(FormatError::TypeMismatch),
            Value::Flag => Err(FormatError::TypeMismatch),
        }
    }
}

impl Formatter for StrFormatter {
    open spec fn format_ens(&self, val: Value, r: Result<String, FormatError>) -> bool {
        match val {
            Value::Text(t) => r matches Ok(out) && (exists|e: int|
                0 <= e && out@ == self.text_spec(t@, e)),
            Value::Icon(i) => r matches Ok(out) && out@ == i@,
            _ => r == Err::<String, FormatError>(FormatError::TypeMismatch),
        }
    }

    open spec fn interval_ens(&self, r: Option<u64>) -> bool {
        r == self.rot_interval_ms
    }

    fn format(&self, val: &Value) -> (r: Result<String, FormatError>) {
        let elapsed: u64 = match &self.init_time {
            Some(t0) => {
                let d = crate::clock::instant_elapsed(t0);
                let m = crate::clock::duration_as_millis(&d);
                if m > u64::MAX as u128 {
                    u64::MAX
                } else {
                    m as u64
                }
            },
            None => 0,
        };
        self.format_at(val, elapsed)
    }

    fn interval(&self) -> (r: Option<u64>) {
        self.rot_interval_ms
    }
}

/// The nine block glyphs, from empty to full.
pub open spec fn bar_char(l: int) -> char {
    if l <= 0 {
        ' '
    } else if l == 1 {
        '\u{258f}'
    } else if l == 2 {
        '\u{258e}'
    } else if l == 3 {
        '\u{258d}'
    } else if l == 4 {
        '\u{258c}'
    } else if l == 5 {
        '\u{258b}'
    } else if l == 6 {
        '\u{258a}'
    } else if l == 7 {
        '\u{2589}'
    } else {
        '\u{2588}'
    }
}

/// The nine block glyphs, from empty to full.
pub fn bar_char_x(l: i128) -> (c: char)
    ensures
        c == bar_char(l as int),
{
    if l <= 0 {
        ' '
    } else if l == 1 {
        '\u{258f}'
    } else if l == 2 {
        '\u{258e}'
    } else if l == 3 {
        '\u{258d}'
    } else if l == 4 {
        '\u{258c}'
    } else if l == 5 {
        '\u{258b}'
    } else if l == 6 {
        '\u{258a}'
    } else if l == 7 {
        '\u{2589}'
    } else {
        '\u{2588}'
    }
}

/// The value/maximum ratio in fixed-point units, rounded half to even and
/// saturated into `[0, 1]`. A zero maximum saturates positive values to a
/// full bar and everything else to an empty one.
pub open spec fn bar_ratio(v: int, m: int) -> int {
    let raw = if m > 0 {
        rhe(v * SCALE as int, m)
    } else if m < 0 {
        rhe(-(v * SCALE as int), -m)
    } else if v > 0 {
        SCALE as int
    } else {
        0
    };
    if raw < 0 {
        0
    } else if raw > SCALE as int {
        SCALE as int
    } else {
        raw
    }
}

/// The fill level of cell `i` (0 through 8): the cells-to-fill count minus
/// `i`, clamped to one cell, in eighths.
pub open spec fn bar_level(norm: int, width: int, i: int) -> int {
    let x = norm * width - i * SCALE as int;
    let c = if x < 0 {
        0
    } else if x > SCALE as int {
        SCALE as int
    } else {
        x
    };
    (c * 8) / (SCALE as int)
}

/// The rendered bar: one glyph per cell.
pub open spec fn bar_seq(norm: int, width: int) -> Seq<char> {
    Seq::new(width as nat, |i: int| bar_char(bar_level(norm, width, i)))
}

/// The `bar` formatter: a block-glyph bar of fixed width.
#[derive(Debug)]
pub struct BarFormatter {
    pub width: usize,
    pub max_value: Fixed,
}

impl Formatter for BarFormatter {
    open spec fn format_ens(&self, val: Value, r: Result<String, FormatError>) -> bool {
        match val {
            Value::Number { val: v, .. } => r matches Ok(out) && out@ == bar_seq(
                bar_ratio(v.units as int, self.max_value.units as int),
                self.width as int,
            ),
            _ => r == Err::<String, FormatError>(FormatError::TypeMismatch),
        }
    }

    open spec fn interval_ens(&self, r: Option<u64>) -> bool {
        r is None
    }

    fn format(&self, val: &Value) -> (r: Result<String, FormatError>) {
        match val {
            Value::Number { val: v, .. } => {
                let m = self.max_value.units;
                let a: i128 = v.units * SCALE;
                let raw: i128 = if m > 0 {
                    crate::fixed::rhe_i128(a, m)
                } else if m == i128::MIN {
                    // the divisor magnitude dwarfs any value: the ratio rounds to zero
                    proof {
                        crate::fixed::lemma_rhe_small(-(a as int), -(m as int));
                    }
                    0
                } else if m < 0 {
                    crate::fixed::rhe_i128(-a, -m)
                } else if v.units > 0 {
                    SCALE
                } else {
                    0
                };
                let norm: i128 = if raw < 0 {
                    0
                } else if raw > SCALE {
                    SCALE
                } else {
                    raw
                };
                let mut out: Vec<char> = Vec::new();
                let mut i: usize = 0;
                let ghost nspec = bar_ratio(v.units as int, self.max_value.units as int);
                proof {
                    assert(norm as int == nspec);
                }
                while i < self.width
                    invariant
                        0 <= i <= self.width,
                        0 <= norm <= SCALE,
                        norm as int == nspec,
                        out@ == bar_seq(nspec, self.width as int).take(i as int),
                    decreases self.width - i,
                {
                    proof {
                        assert(norm as int * self.width as int <= SCALE as int * self.width as int
                            && norm as int * self.width as int >= 0) by (nonlinear_arith)
                            requires
                                0 <= norm as int <= SCALE as int,
                                self.width >= 0,
                        ;
                        assert(i as int * SCALE as int <= self.width as int * SCALE as int
                            && i as int * SCALE as int >= 0) by (nonlinear_arith)
                            requires
                                0 <= i as int <= self.width as int,
                                SCALE as int > 0,
                        ;
                        assert(SCALE as int * self.width as int == self.width as int
                            * SCALE as int) by (nonlinear_arith);
                    }
                    let x: i128 = norm * (self.width as i128) - (i as i128) * SCALE;
                    let c: i128 = if x < 0 {
                        0
                    } else if x > SCALE {
                        SCALE
                    } else {
                        x
                    };
                    proof {
                        lemma_div_is_ordered(c as int * 8, 8 * SCALE as int, SCALE as int);
                        lemma_div_multiples_vanish(8, SCALE as int);
                        lemma_div_pos_is_pos(c as int * 8, SCALE as int);
                    }
                    let lvl: i128 = (c * 8) / SCALE;
                    out.push(bar_char_x(lvl));
                    proof {
                        assert(out@ =~= bar_seq(nspec, self.width as int).take(i as int + 1));
                    }
                    i += 1;
                }
                proof {
                    assert(bar_seq(nspec, self.width as int).take(self.width as int) =~= bar_seq(
                        nspec,
                        self.width as int,
                    ));
                }
                Ok(chars_to_string(&out))
            },
            _ => Err(FormatError::TypeMismatch),
        }
    }

    fn interval(&self) -> (r: Option<u64>) {
        None
    }
}

/// A run of zero characters.
pub open spec fn zeroes(n: nat) -> Seq<char> {
    Seq::new(n, |i: int| '0')
}

/// The numeral of a unit count rendered with `prec >= 1` decimal places,
/// rounded half to even (digits past the engine's own precision are zeros).
pub open spec fn frac_numeral(units: int, prec: int) -> Seq<char> {
    let sign: Seq<char> = if units < 0 {
        seq!['-']
    } else {
        Seq::empty()
    };
    let m = abs(units) as int;
    if prec <= 9 {
        let q = rhe(m, pow10((9 - prec) as nat));
        sign + dec_seq((q / pow10(prec as nat)) as nat) + seq!['.'] + dec_seq_pad(
            (q % pow10(prec as nat)) as nat,
            prec as nat,
        )
    } else {
        sign + dec_seq((m / SCALE as int) as nat) + seq!['.'] + dec_seq_pad(
            (m % SCALE as int) as nat,
            9,
        ) + zeroes((prec - 9) as nat)
    }
}

/// The number of digit cells the whole part takes, one more for a sign.
pub open spec fn eng_digits(units: int) -> int {
    (if units >= SCALE as int {
        dec_len((units / SCALE as int) as nat) as int
    } else {
        1int
    }) + (if units < 0 {
        1int
    } else {
        0int
    })
}

/// The engineering numeral of a scaled unit count within a width budget:
/// no room for a fraction floors the value, a budget of exactly one spare
/// cell pads with a leading space, anything more spends the spare cells on
/// a decimal point and fraction digits.
pub open spec fn eng_numeral(units: int, width: int) -> Seq<char> {
    let digits = eng_digits(units);
    if width - digits <= 0 {
        int_seq(units / SCALE as int)
    } else if width - digits == 1 {
        seq![' '] + int_seq(units / SCALE as int)
    } else {
        frac_numeral(units, width - digits - 1)
    }
}

/// Append the decimal numeral of a signed integer.
fn push_int(out: &mut Vec<char>, v: i128)
    requires
        -0x7fff_ffff_ffff_ffff_ffff_ffff_ffff_fffe <= v
            <= 0x7fff_ffff_ffff_ffff_ffff_ffff_ffff_fffe,
    ensures
        final(out)@ == old(out)@ + int_seq(v as int),
{
    if v < 0 {
        out.push('-');
        push_dec(out, (-v) as u128);
        proof {
            assert(out@ =~= old(out)@ + int_seq(v as int));
        }
    } else {
        push_dec(out, v as u128);
    }
}

/// Append the numeral of a unit count with `prec` decimal places.
fn push_frac_numeral(out: &mut Vec<char>, units: i128, prec: usize)
    requires
        1 <= prec,
        -100_000_000_000_000_000_000_000_000_000_000 <= units
            <= 100_000_000_000_000_000_000_000_000_000_000,
    ensures
        final(out)@ == old(out)@ + frac_numeral(units as int, prec as int),
{
    let ghost start_out = out@;
    if units < 0 {
        out.push('-');
    }
    let m: u128 = if units < 0 {
        (-units) as u128
    } else {
        units as u128
    };
    if prec <= 9 {
        let d = crate::args::pow10x(9 - prec);
        proof {
            crate::fixed::lemma_pow10_pos((9 - prec) as nat);
        }
        let q = rhe_u128(m, d);
        proof {
            lemma_rhe_bound(m as int, d as int);
            crate::fixed::lemma_pow10_pos(prec as nat);
        }
        let p = crate::args::pow10x(prec);
        push_dec(out, q / p);
        out.push('.');
        push_dec_pad(out, q % p, prec);
        proof {
            assert(out@ =~= start_out + frac_numeral(units as int, prec as int));
        }
    } else {
        push_dec(out, m / 1_000_000_000u128);
        out.push('.');
        push_dec_pad(out, m % 1_000_000_000u128, 9);
        let ghost base = out@;
        let ztotal = prec - 9;
        let mut z: usize = 0;
        while z < ztotal
            invariant
                0 <= z <= ztotal,
                out@ == base + zeroes(z as nat),
            decreases ztotal - z,
        {
            out.push('0');
            proof {
                assert(out@ =~= base + zeroes(z as nat + 1));
            }
            z += 1;
        }
        proof {
            assert(out@ =~= start_out + frac_numeral(units as int, prec as int));
        }
    }
}

/// Append the engineering numeral of a scaled unit count.
fn push_eng_numeral(out: &mut Vec<char>, units: i128, width: usize)
    requires
        -100_000_000_000_000_000_000_000_000_000_000 <= units
            <= 100_000_000_000_000_000_000_000_000_000_000,
    ensures
        final(out)@ == old(out)@ + eng_numeral(units as int, width as int),
{
    let base: usize = if units >= SCALE {
        num_digits((units as u128) / 1_000_000_000u128)
    } else {
        1
    };
    let digits: usize = base + (if units < 0 {
        1
    } else {
        0
    });
    if width <= digits {
        let fl = floor_div_i128(units, SCALE);
        proof {
            lemma_floor_small(units as int, SCALE as int);
        }
        push_int(out, fl);
    } else if width - digits == 1 {
        let fl = floor_div_i128(units, SCALE);
        proof {
            lemma_floor_small(units as int, SCALE as int);
        }
        out.push(' ');
        push_int(out, fl);
        proof {
            assert(out@ =~= old(out)@ + eng_numeral(units as int, width as int));
        }
    } else {
        push_frac_numeral(out, units, width - digits - 1);
    }
}

/// Flooring by the scale keeps a value inside the engine's integer range.
proof fn lemma_floor_small(a: int, d: int)
    requires
        d >= 1,
        -100_000_000_000_000_000_000_000_000_000_000 <= a
            <= 100_000_000_000_000_000_000_000_000_000_000,
    ensures
        -100_000_000_000_000_000_000_000_000_000_000 <= a / d
            <= 100_000_000_000_000_000_000_000_000_000_000,
{
    lemma_fundamental_div_mod_wrap(a, d);
    assert(-abs(a) <= a / d <= abs(a)) by (nonlinear_arith)
        requires
            d >= 1,
            a == d * (a / d) + (a % d),
            0 <= a % d < d,
    ;
}

/// The fundamental division identity together with the remainder bound.
proof fn lemma_fundamental_div_mod_wrap(a: int, d: int)
    requires
        d != 0,
    ensures
        a == d * (a / d) + (a % d),
        d > 0 ==> 0 <= a % d < d,
{
    vstd::arithmetic::div_mod::lemma_fundamental_div_mod(a, d);
    if d > 0 {
        vstd::arithmetic::div_mod::lemma_mod_bound(a, d);
    }
}

/// The shared configuration of the `eng` and `fix` formatters.
#[derive(Debug, Clone, Copy, PartialEq, Eq, Structural)]
pub struct EngFixConfig {
    pub width: usize,
    pub unit: Option<Unit>,
    pub unit_has_space: bool,
    pub unit_hidden: bool,
    pub prefix: Option<Prefix>,
    pub prefix_has_space: bool,
    pub prefix_hidden: bool,
    pub prefix_forced: bool,
}

/// The defaults of the `eng`/`fix` configuration.
pub open spec fn eng_fix_default() -> EngFixConfig {
    EngFixConfig {
        width: 2,
        unit: None,
        unit_has_space: false,
        unit_hidden: false,
        prefix: None,
        prefix_has_space: false,
        prefix_hidden: false,
        prefix_forced: false,
    }
}

/// What one argument does to an `eng`/`fix` configuration: recognized keys
/// replace one field if the value parses; anything else rejects the argument.
pub open spec fn eng_fix_step(cur: EngFixConfig, a: Arg) -> Option<EngFixConfig> {
    if a.key@ == "width"@ || a.key@ == "w"@ {
        if is_uint_str(a.val@) && uint_val(a.val@) <= usize::MAX as int {
            Some(EngFixConfig { width: uint_val(a.val@) as usize, ..cur })
        } else {
            None
        }
    } else if a.key@ == "unit"@ || a.key@ == "u"@ {
        match unit_of_str(a.val@) {
            Some(u) => Some(EngFixConfig { unit: Some(u), ..cur }),
            None => None,
        }
    } else if a.key@ == "hide_unit"@ {
        match spec_bool_of(a.val@) {
            Some(b) => Some(EngFixConfig { unit_hidden: b, ..cur }),
            None => None,
        }
    } else if a.key@ == "unit_space"@ {
        match spec_bool_of(a.val@) {
            Some(b) => Some(EngFixConfig { unit_has_space: b, ..cur }),
            None => None,
        }
    } else if a.key@ == "prefix"@ || a.key@ == "p"@ {
        match crate::prefix::prefix_of_str(a.val@) {
            Some(p) => Some(EngFixConfig { prefix: Some(p), ..cur }),
            None => None,
        }
    } else if a.key@ == "hide_prefix"@ {
        match spec_bool_of(a.val@) {
            Some(b) => Some(EngFixConfig { prefix_hidden: b, ..cur }),
            None => None,
        }
    } else if a.key@ == "prefix_space"@ {
        match spec_bool_of(a.val@) {
            Some(b) => Some(EngFixConfig { prefix_has_space: b, ..cur }),
            None => None,
        }
    } else if a.key@ == "force_prefix"@ {
        match spec_bool_of(a.val@) {
            Some(b) => Some(EngFixConfig { prefix_forced: b, ..cur }),
            None => None,
        }
    } else {
        None
    }
}

/// The boolean a configuration string denotes, if any.
pub open spec fn spec_bool_of(s: Seq<char>) -> Option<bool> {
    if s == "true"@ {
        Some(true)
    } else if s == "false"@ {
        Some(false)
    } else {
        None
    }
}

/// Fold a whole argument list over a configuration, left to right, last
/// occurrence of a key winning.
pub open spec fn eng_fix_fold(cur: EngFixConfig, args: Seq<Arg>) -> Option<EngFixConfig>
    decreases args.len(),
{
    if args.len() == 0 {
        Some(cur)
    } else {
        match eng_fix_step(cur, args[0]) {
            Some(c) => eng_fix_fold(c, args.drop_first()),
            None => None,
        }
    }
}

impl EngFixConfig {
    /// Build the configuration from arguments: the fold of the argument
    /// list over the defaults, or the offending key's error.
    pub fn from_args(args: &[Arg]) -> (r: Result<EngFixConfig, ConfigError>)
        ensures
            match eng_fix_fold(eng_fix_default(), args@) {
                Some(c) => r matches Ok(cfg) && cfg == c,
                None => r matches Err(e) && (e is UnknownArg || e is BadValue),
            },
    {
        let mut cfg = EngFixConfig {
            width: 2,
            unit: None,
            unit_has_space: false,
            unit_hidden: false,
            prefix: None,
            prefix_has_space: false,
            prefix_hidden: false,
            prefix_forced: false,
        };
        let n = args.len();
        let mut i: usize = 0;
        proof {
            assert(args@.skip(0) =~= args@);
        }
        while i < n
            invariant
                n == args@.len(),
                0 <= i <= n,
                eng_fix_fold(eng_fix_default(), args@) == eng_fix_fold(cfg, args@.skip(i as int)),
            decreases n - i,
        {
            let a = &args[i];
            proof {
                assert(args@.skip(i as int)[0] == args@[i as int]);
                assert(args@.skip(i as int).drop_first() =~= args@.skip(i as int + 1));
            }
            let k = a.key.as_str();
            if str_eq(k, "width") || str_eq(k, "w") {
                match parse_usize(a.val.as_str()) {
                    Some(v) => {
                        cfg.width = v;
                    },
                    None => {
                        return Err(ConfigError::BadValue(a.key.clone()));
                    },
                }
            } else if str_eq(k, "unit") || str_eq(k, "u") {
                match crate::unit::parse_unit(a.val.as_str()) {
                    Some(u) => {
                        cfg.unit = Some(u);
                    },
                    None => {
                        return Err(ConfigError::BadValue(a.key.clone()));
                    },
                }
            } else if str_eq(k, "hide_unit") {
                match parse_bool(a.val.as_str()) {
                    Some(b) => {
                        cfg.unit_hidden = b;
                    },
                    None => {
                        return Err(ConfigError::BadValue(a.key.clone()));
                    },
                }
            } else if str_eq(k, "unit_space") {
                match parse_bool(a.val.as_str()) {
                    Some(b) => {
                        cfg.unit_has_space = b;
                    },
                    None => {
                        return Err(ConfigError::BadValue(a.key.clone()));
                    },
                }
            } else if str_eq(k, "prefix") || str_eq(k, "p") {
                match crate::prefix::parse_prefix(a.val.as_str()) {
                    Some(p) => {
                        cfg.prefix = Some(p);
                    },
                    None => {
                        return Err(ConfigError::BadValue(a.key.clone()));
                    },
                }
            } else if str_eq(k, "hide_prefix") {
                match parse_bool(a.val.as_str()) {
                    Some(b) => {
                        cfg.prefix_hidden = b;
                    },
                    None => {
                        return Err(ConfigError::BadValue(a.key.clone()));
                    },
                }
            } else if str_eq(k, "prefix_space") {
                match parse_bool(a.val.as_str()) {
                    Some(b) => {
                        cfg.prefix_has_space = b;
                    },
                    None => {
                        return Err(ConfigError::BadValue(a.key.clone()));
                    },
                }
            } else if str_eq(k, "force_prefix") {
                match parse_bool(a.val.as_str()) {
                    Some(b) => {
                        cfg.prefix_forced = b;
                    },
                    None => {
                        return Err(ConfigError::BadValue(a.key.clone()));
                    },
                }
            } else {
                return Err(ConfigError::UnknownArg(a.key.clone()));
            }
            i += 1;
        }
        proof {
            assert(args@.skip(n as int) =~= Seq::<Arg>::empty());
        }
        Ok(cfg)
    }
}

/// The `eng` formatter: auto-scaled numeral plus prefix and unit suffix
/// within a fixed character budget.
#[derive(Debug)]
pub struct EngFormatter(pub EngFixConfig);

impl EngFormatter {
    /// The admissible prefix window: a forced prefix pins it, a preferred
    /// one opens it upward, otherwise the whole enumeration.
    pub open spec fn window_spec(self) -> (Prefix, Prefix) {
        match self.0.prefix {
            Some(p) => if self.0.prefix_forced {
                (p, p)
            } else {
                (p, Prefix::Pebi)
            },
            None => (Prefix::Milli, Prefix::Pebi),
        }
    }

    /// The prefix the formatter settles on for a converted unit count.
    pub open spec fn chosen_prefix(self, units: int, unit: Unit) -> Prefix {
        let w = self.window_spec();
        unit.clamp_prefix_spec(
            if w.0.is_binary_spec() {
                Prefix::eng_binary_spec(units)
            } else {
                Prefix::eng_spec(units)
            },
        ).clamp_spec(w.0, w.1)
    }

    /// The prefix and unit symbols appended after the numeral.
    pub open spec fn suffix_spec(self, p: Prefix, unit: Unit) -> Seq<char> {
        let display_prefix = !self.0.prefix_hidden && p != Prefix::One && p
            != Prefix::OneButBinary;
        let display_unit = !self.0.unit_hidden && unit != Unit::NoUnit;
        (if display_prefix {
            (if self.0.prefix_has_space {
                seq![' ']
            } else {
                Seq::<char>::empty()
            }) + p.symbol_spec()
        } else {
            Seq::<char>::empty()
        }) + (if display_unit {
            (if self.0.unit_has_space || (self.0.prefix_has_space && !display_prefix) {
                seq![' ']
            } else {
                Seq::<char>::empty()
            }) + unit.symbol_spec()
        } else {
            Seq::<char>::empty()
        })
    }

    /// Whether a forced unit conversion is dimension-compatible.
    pub open spec fn converts_ok(self, unit: Unit) -> bool {
        match self.0.unit {
            Some(nu) => unit.dimension_spec() == nu.dimension_spec(),
            None => true,
        }
    }

    /// The full rendered output for a numeric value.
    pub open spec fn out_spec(self, v: Fixed, unit: Unit) -> Seq<char> {
        let cu: (int, Unit) = match self.0.unit {
            Some(nu) => (unit.convert_units_spec(v.units as int, nu), nu),
            None => (v.units as int, unit),
        };
        let p = self.chosen_prefix(cu.0, cu.1);
        let scaled = p.apply_spec(cu.0);
        eng_numeral(scaled, self.0.width as int) + self.suffix_spec(p, cu.1)
    }
}

impl Formatter for EngFormatter {
    open spec fn format_ens(&self, val: Value, r: Result<String, FormatError>) -> bool {
        match val {
            Value::Number { val: v, unit } => if self.converts_ok(unit) {
                r matches Ok(out) && out@ == self.out_spec(v, unit)
            } else {
                r == Err::<String, FormatError>(FormatError::UnitMismatch)
            },
            _ => r == Err::<String, FormatError>(FormatError::TypeMismatch),
        }
    }

    open spec fn interval_ens(&self, r: Option<u64>) -> bool {
        r is None
    }

    fn format(&self, val: &Value) -> (r: Result<String, FormatError>) {
        match val {
            Value::Number { val: v, unit } => self.render_number(v, unit),
            _ => Err(FormatError::TypeMismatch),
        }
    }

    fn interval(&self) -> (r: Option<u64>) {
        None
    }
}

impl EngFormatter {
    /// Render one numeric value: convert, pick and apply a prefix, lay the
    /// numeral out within the width budget, append the suffix.
    #[verifier::rlimit(100)]
    pub fn render_number(&self, v: &Fixed, unit: &Unit) -> (r: Result<String, FormatError>)
        requires
            v.wf(),
        ensures
            if self.converts_ok(*unit) {
                r matches Ok(out) && out@ == self.out_spec(*v, *unit)
            } else {
                r == Err::<String, FormatError>(FormatError::UnitMismatch)
            },
    {
        {
            {
                let mut cur: Fixed = *v;
                let mut u: Unit = *unit;
                if let Some(nu) = self.0.unit {
                    match u.convert(cur, nu) {
                        Ok(c) => {
                            cur = c;
                            u = nu;
                        },
                        Err(e) => {
                            return Err(e);
                        },
                    }
                }
                let (minp, maxp) = match self.0.prefix {
                    Some(p) => if self.0.prefix_forced {
                        (p, p)
                    } else {
                        (p, Prefix::max_available())
                    },
                    None => (Prefix::min_available(), Prefix::max_available()),
                };
                let base = if minp.is_binary() {
                    Prefix::eng_binary(cur)
                } else {
                    Prefix::eng(cur)
                };
                let pfx = u.clamp_prefix(base).clamp(minp, maxp);
                let scaled = pfx.apply(cur);
                let out = self.assemble(scaled, pfx, u);
                Ok(chars_to_string(&out))
            }
        }
    }

    /// Lay out the numeral for an already scaled value and append the
    /// prefix and unit symbols per the configuration's display flags.
    #[verifier::rlimit(100)]
    fn assemble(&self, scaled: Fixed, pfx: Prefix, u: Unit) -> (out: Vec<char>)
        requires
            scaled.bounded(100_000_000_000_000_000_000_000_000_000_000),
        ensures
            out@ == eng_numeral(scaled.units as int, self.0.width as int) + self.suffix_spec(
                pfx,
                u,
            ),
    {
        let mut out: Vec<char> = Vec::new();
        push_eng_numeral(&mut out, scaled.units, self.0.width);
        let ghost num_part = out@;
        let display_prefix = !self.0.prefix_hidden && !(pfx == Prefix::One) && !(pfx
            == Prefix::OneButBinary);
        let display_unit = !self.0.unit_hidden && !(u == Unit::NoUnit);
        if display_prefix {
            if self.0.prefix_has_space {
                out.push(' ');
            }
            pfx.push_symbol(&mut out);
        }
        let ghost first_part: Seq<char> = if display_prefix {
            (if self.0.prefix_has_space {
                seq![' ']
            } else {
                Seq::<char>::empty()
            }) + pfx.symbol_spec()
        } else {
            Seq::<char>::empty()
        };
        proof {
            assert(out@ =~= num_part + first_part);
        }
        if display_unit {
            if self.0.unit_has_space || (self.0.prefix_has_space && !display_prefix) {
                out.push(' ');
            }
            u.push_symbol(&mut out);
        }
        let ghost second_part: Seq<char> = if display_unit {
            (if self.0.unit_has_space || (self.0.prefix_has_space && !display_prefix) {
                seq![' ']
            } else {
                Seq::<char>::empty()
            }) + u.symbol_spec()
        } else {
            Seq::<char>::empty()
        };
        proof {
            assert(out@ =~= num_part + first_part + second_part);
            assert(num_part + first_part + second_part =~= num_part + (first_part + second_part));
            assert(first_part + second_part == self.suffix_spec(pfx, u));
        }
        out
    }
}

/// The `fix` formatter: reserved for fixed-point rendering; deliberately
/// reports numeric input as not implemented.
#[derive(Debug)]
pub struct FixFormatter(pub EngFixConfig);

impl Formatter for FixFormatter {
    open spec fn format_ens(&self, val: Value, r: Result<String, FormatError>) -> bool {
        match val {
            Value::Number { .. } => r == Err::<String, FormatError>(FormatError::NotImplemented),
            _ => r == Err::<String, FormatError>(FormatError::TypeMismatch),
        }
    }

    open spec fn interval_ens(&self, r: Option<u64>) -> bool {
        r is None
    }

    fn format(&self, val: &Value) -> (r: Result<String, FormatError>) {
        match val {
            Value::Number { .. } => Err(FormatError::NotImplemented),
            _ => Err(FormatError::TypeMismatch),
        }
    }

    fn interval(&self) -> (r: Option<u64>) {
        None
    }
}

/// The flag formatter: the fixed singleton used for flag-typed values. The
/// producing layer never routes another variant here; one that arrives
/// anyway is reported as a type mismatch.
#[derive(Debug)]
pub struct FlagFormatter;

impl Formatter for FlagFormatter {
    open spec fn format_ens(&self, val: Value, r: Result<String, FormatError>) -> bool {
        match val {
            Value::Flag => r matches Ok(out) && out@ == Seq::<char>::empty(),
            _ => r == Err::<String, FormatError>(FormatError::TypeMismatch),
        }
    }

    open spec fn interval_ens(&self, r: Option<u64>) -> bool {
        r is None
    }

    fn format(&self, val: &Value) -> (r: Result<String, FormatError>) {
        match val {
            Value::Flag => Ok(String::new()),
            _ => Err(FormatError::TypeMismatch),
        }
    }

    fn interval(&self) -> (r: Option<u64>) {
        None
    }
}

/// The accumulated `str` arguments before cross-field validation.
#[derive(Debug, Clone, Copy, PartialEq, Eq, Structural)]
pub struct StrConfig {
    pub min_width: usize,
    pub max_width: usize,
    pub pango: bool,
    pub rot_interval: Option<Fixed>,
}

/// The defaults of the `str` configuration: no padding, no truncation, no
/// rotation, escaping on.
pub open spec fn str_default() -> StrConfig {
    StrConfig { min_width: 0, max_width: usize::MAX, pango: false, rot_interval: None }
}

/// What one argument does to a `str` configuration.
pub open spec fn str_step(cur: StrConfig, a: Arg) -> Option<StrConfig> {
    if a.key@ == "min_width"@ || a.key@ == "min_w"@ {
        if is_uint_str(a.val@) && uint_val(a.val@) <= usize::MAX as int {
            Some(StrConfig { min_width: uint_val(a.val@) as usize, ..cur })
        } else {
            None
        }
    } else if a.key@ == "max_width"@ || a.key@ == "max_w"@ {
        if is_uint_str(a.val@) && uint_val(a.val@) <= usize::MAX as int {
            Some(StrConfig { max_width: uint_val(a.val@) as usize, ..cur })
        } else {
            None
        }
    } else if a.key@ == "pango"@ {
        match spec_bool_of(a.val@) {
            Some(b) => Some(StrConfig { pango: b, ..cur }),
            None => None,
        }
    } else if a.key@ == "rot_interval"@ {
        match fixed_units_of(a.val@) {
            Some(u) => Some(StrConfig { rot_interval: Some(Fixed { units: u as i128 }), ..cur }),
            None => None,
        }
    } else {
        None
    }
}

/// Fold a whole argument list over a `str` configuration.
pub open spec fn str_fold(cur: StrConfig, args: Seq<Arg>) -> Option<StrConfig>
    decreases args.len(),
{
    if args.len() == 0 {
        Some(cur)
    } else {
        match str_step(cur, args[0]) {
            Some(c) => str_fold(c, args.drop_first()),
            None => None,
        }
    }
}

/// What one argument does to a `bar` configuration.
pub open spec fn bar_step(cur: BarFormatter, a: Arg) -> Option<BarFormatter> {
    if a.key@ == "width"@ || a.key@ == "w"@ {
        if is_uint_str(a.val@) && uint_val(a.val@) <= usize::MAX as int {
            Some(BarFormatter { width: uint_val(a.val@) as usize, ..cur })
        } else {
            None
        }
    } else if a.key@ == "max_value"@ {
        match fixed_units_of(a.val@) {
            Some(u) => Some(BarFormatter { max_value: Fixed { units: u as i128 }, ..cur }),
            None => None,
        }
    } else {
        None
    }
}

/// Fold a whole argument list over a `bar` configuration.
pub open spec fn bar_fold(cur: BarFormatter, args: Seq<Arg>) -> Option<BarFormatter>
    decreases args.len(),
{
    if args.len() == 0 {
        Some(cur)
    } else {
        match bar_step(cur, args[0]) {
            Some(c) => bar_fold(c, args.drop_first()),
            None => None,
        }
    }
}

/// The default `bar` configuration: five cells, full at one hundred.
pub open spec fn bar_default() -> BarFormatter {
    BarFormatter { width: 5, max_value: Fixed { units: 100_000_000_000 } }
}

/// One constructed formatter of any kind.
#[derive(Debug)]
pub enum FormatterHandle {
    Str(StrFormatter),
    Bar(BarFormatter),
    Eng(EngFormatter),
    Fix(FixFormatter),
    Flag(FlagFormatter),
}

/// Build a formatter from its name and arguments. `str`, `bar`, `eng` and
/// `fix` are the recognized names; the flag formatter is not reachable here.
/// Arguments fold left to right (last occurrence of a key wins); an unknown
/// key or a malformed value rejects the specification, as do inverted width
/// bounds and a rotation interval under a tenth of a second.
#[verifier::loop_isolation(false)]
pub fn new_formatter(name: &str, args: &[Arg]) -> (r: Result<FormatterHandle, ConfigError>)
    ensures
        name@ == "str"@ ==> match str_fold(str_default(), args@) {
            Some(c) => {
                if c.max_width < c.min_width {
                    r matches Err(e) && e is InvalidWidths
                } else if c.rot_interval matches Some(x) && x.units < 100_000_000 {
                    r matches Err(e) && e is RotIntervalTooSmall
                } else {
                    r matches Ok(h) && h matches FormatterHandle::Str(f) && f.min_width
                        == c.min_width && f.max_width == c.max_width && f.pango == c.pango
                        && f.init_time is Some && (match c.rot_interval {
                        Some(x) => f.rot_interval_ms matches Some(ms) && ms as int
                            == vstd::math::min(x.units as int / 1_000_000, u64::MAX as int),
                        None => f.rot_interval_ms is None,
                    })
                }
            },
            None => r matches Err(e) && (e is UnknownArg || e is BadValue),
        },
        name@ == "bar"@ ==> match bar_fold(bar_default(), args@) {
            Some(c) => r matches Ok(h) && h matches FormatterHandle::Bar(b) && b == c,
            None => r matches Err(e) && (e is UnknownArg || e is BadValue),
        },
        name@ == "eng"@ ==> match eng_fix_fold(eng_fix_default(), args@) {
            Some(c) => r matches Ok(h) && h matches FormatterHandle::Eng(f) && f.0 == c,
            None => r matches Err(e) && (e is UnknownArg || e is BadValue),
        },
        name@ == "fix"@ ==> match eng_fix_fold(eng_fix_default(), args@) {
            Some(c) => r matches Ok(h) && h matches FormatterHandle::Fix(f) && f.0 == c,
            None => r matches Err(e) && (e is UnknownArg || e is BadValue),
        },
        !(name@ == "str"@ || name@ == "bar"@ || name@ == "eng"@ || name@ == "fix"@) ==> (r matches Err(e)
            && (e matches ConfigError::UnknownFormatter(m) && m@ == name@)),
{
    proof {
        reveal_strlit("str");
        reveal_strlit("bar");
        reveal_strlit("eng");
        reveal_strlit("fix");
        assert("str"@[0] == 's' && "bar"@[0] == 'b' && "eng"@[0] == 'e' && "fix"@[0] == 'f');
    }
    if str_eq(name, "str") {
        let mut cfg = StrConfig {
            min_width: 0,
            max_width: usize::MAX,
            pango: false,
            rot_interval: None,
        };
        let n = args.len();
        let mut i: usize = 0;
        proof {
            assert(args@.skip(0) =~= args@);
        }
        while i < n
            invariant
                n == args@.len(),
                0 <= i <= n,
                str_fold(str_default(), args@) == str_fold(cfg, args@.skip(i as int)),
                cfg.rot_interval matches Some(x) ==> x.wf(),
            decreases n - i,
        {
            let a = &args[i];
            proof {
                assert(args@.skip(i as int)[0] == args@[i as int]);
                assert(args@.skip(i as int).drop_first() =~= args@.skip(i as int + 1));
            }
            let k = a.key.as_str();
            if str_eq(k, "min_width") || str_eq(k, "min_w") {
                match parse_usize(a.val.as_str()) {
                    Some(v) => {
                        cfg.min_width = v;
                    },
                    None => {
                        return Err(ConfigError::BadValue(a.key.clone()));
                    },
                }
            } else if str_eq(k, "max_width") || str_eq(k, "max_w") {
                match parse_usize(a.val.as_str()) {
                    Some(v) => {
                        cfg.max_width = v;
                    },
                    None => {
                        return Err(ConfigError::BadValue(a.key.clone()));
                    },
                }
            } else if str_eq(k, "pango") {
                match parse_bool(a.val.as_str()) {
                    Some(b) => {
                        cfg.pango = b;
                    },
                    None => {
                        return Err(ConfigError::BadValue(a.key.clone()));
                    },
                }
            } else if str_eq(k, "rot_interval") {
                match parse_fixed(a.val.as_str()) {
                    Some(x) => {
                        cfg.rot_interval = Some(x);
                    },
                    None => {
                        return Err(ConfigError::BadValue(a.key.clone()));
                    },
                }
            } else {
                return Err(ConfigError::UnknownArg(a.key.clone()));
            }
            i += 1;
        }
        proof {
            assert(args@.skip(n as int) =~= Seq::<Arg>::empty());
        }
        if cfg.max_width < cfg.min_width {
            return Err(ConfigError::InvalidWidths);
        }
        let rot_ms: Option<u64> = match &cfg.rot_interval {
            Some(x) => {
                if x.units < 100_000_000 {
                    return Err(ConfigError::RotIntervalTooSmall);
                }
                Some(x.to_millis_saturating())
            },
            None => None,
        };
        Ok(
            FormatterHandle::Str(
                StrFormatter {
                    min_width: cfg.min_width,
                    max_width: cfg.max_width,
                    pango: cfg.pango,
                    rot_interval_ms: rot_ms,
                    init_time: Some(crate::clock::instant_now()),
                },
            ),
        )
    } else if str_eq(name, "bar") {
        let mut cfg = BarFormatter { width: 5, max_value: Fixed { units: 100_000_000_000 } };
        let n = args.len();
        let mut i: usize = 0;
        proof {
            assert(args@.skip(0) =~= args@);
        }
        while i < n
            invariant
                n == args@.len(),
                0 <= i <= n,
                bar_fold(bar_default(), args@) == bar_fold(cfg, args@.skip(i as int)),
            decreases n - i,
        {
            let a = &args[i];
            proof {
                assert(args@.skip(i as int)[0] == args@[i as int]);
                assert(args@.skip(i as int).drop_first() =~= args@.skip(i as int + 1));
            }
            let k = a.key.as_str();
            if str_eq(k, "width") || str_eq(k, "w") {
                match parse_usize(a.val.as_str()) {
                    Some(v) => {
                        cfg.width = v;
                    },
                    None => {
                        return Err(ConfigError::BadValue(a.key.clone()));
                    },
                }
            } else if str_eq(k, "max_value") {
                match parse_fixed(a.val.as_str()) {
                    Some(x) => {
                        cfg.max_value = x;
                    },
                    None => {
                        return Err(ConfigError::BadValue(a.key.clone()));
                    },
                }
            } else {
                return Err(ConfigError::UnknownArg(a.key.clone()));
            }
            i += 1;
        }
        proof {
            assert(args@.skip(n as int) =~= Seq::<Arg>::empty());
        }
        Ok(FormatterHandle::Bar(cfg))
    } else if str_eq(name, "eng") {
        match EngFixConfig::from_args(args) {
            Ok(c) => Ok(FormatterHandle::Eng(EngFormatter(c))),
            Err(e) => Err(e),
        }
    } else if str_eq(name, "fix") {
        match EngFixConfig::from_args(args) {
            Ok(c) => Ok(FormatterHandle::Fix(FixFormatter(c))),
            Err(e) => Err(e),
        }
    } else {
        Err(ConfigError::UnknownFormatter(name.to_owned()))
    }
}

impl Formatter for FormatterHandle {
    open spec fn format_ens(&self, val: Value, r: Result<String, FormatError>) -> bool {
        match self {
            FormatterHandle::Str(f) => f.format_ens(val, r),
            FormatterHandle::Bar(f) => f.format_ens(val, r),
            FormatterHandle::Eng(f) => f.format_ens(val, r),
            FormatterHandle::Fix(f) => f.format_ens(val, r),
            FormatterHandle::Flag(f) => f.format_ens(val, r),
        }
    }

    open spec fn interval_ens(&self, r: Option<u64>) -> bool {
        match self {
            FormatterHandle::Str(f) => f.interval_ens(r),
            FormatterHandle::Bar(f) => f.interval_ens(r),
            FormatterHandle::Eng(f) => f.interval_ens(r),
            FormatterHandle::Fix(f) => f.interval_ens(r),
            FormatterHandle::Flag(f) => f.interval_ens(r),
        }
    }

    fn format(&self, val: &Value) -> (r: Result<String, FormatError>) {
        match self {
            FormatterHandle::Str(f) => f.format(val),
            FormatterHandle::Bar(f) => f.format(val),
            FormatterHandle::Eng(f) => f.format(val),
            FormatterHandle::Fix(f) => f.format(val),
            FormatterHandle::Flag(f) => f.format(val),
        }
    }

    fn interval(&self) -> (r: Option<u64>) {
        match self {
            FormatterHandle::Str(f) => f.interval(),
            FormatterHandle::Bar(f) => f.interval(),
            FormatterHandle::Eng(f) => f.interval(),
            FormatterHandle::Fix(f) => f.interval(),
            FormatterHandle::Flag(f) => f.interval(),
        }
    }
}

} // verus!
