//! Metric and binary magnitude prefixes. The enumeration is totally ordered
//! by multiplier so that a selected prefix can be clamped into an admissible
//! window; each family has an identity element (`One`, `OneButBinary`).

use vstd::prelude::*;
use vstd::math::abs;
use crate::fixed::{Fixed, rhe, rhe_i128, lemma_rhe_bound, lemma_rhe_neg};

verus! {

/// A magnitude prefix: decimal steps of 1000 or binary steps of 1024.
#[derive(Clone, Copy, Debug, PartialEq, Eq, Structural)]
pub enum Prefix {
    Milli,
    One,
    OneButBinary,
    Kilo,
    Kibi,
    Mega,
    Mebi,
    Giga,
    Gibi,
    Tera,
    Tebi,
    Peta,
    Pebi,
}

impl Prefix {
    /// Position in the order of ascending multiplier (the binary identity
    /// stands right above the decimal one).
    pub open spec fn rank_spec(self) -> int {
        match self {
            Prefix::Milli => 0,
            Prefix::One => 1,
            Prefix::OneButBinary => 2,
            Prefix::Kilo => 3,
            Prefix::Kibi => 4,
            Prefix::Mega => 5,
            Prefix::Mebi => 6,
            Prefix::Giga => 7,
            Prefix::Gibi => 8,
            Prefix::Tera => 9,
            Prefix::Tebi => 10,
            Prefix::Peta => 11,
            Prefix::Pebi => 12,
        }
    }

    /// Position in the order of ascending multiplier.
    pub fn rank(&self) -> (r: u8)
        ensures
            r as int == self.rank_spec(),
    {
        match self {
            Prefix::Milli => 0,
            Prefix::One => 1,
            Prefix::OneButBinary => 2,
            Prefix::Kilo => 3,
            Prefix::Kibi => 4,
            Prefix::Mega => 5,
            Prefix::Mebi => 6,
            Prefix::Giga => 7,
            Prefix::Gibi => 8,
            Prefix::Tera => 9,
            Prefix::Tebi => 10,
            Prefix::Peta => 11,
            Prefix::Pebi => 12,
        }
    }

    /// The prefix's multiplier, scaled by 1000 so that `Milli` is exact.
    pub open spec fn mult1000_spec(self) -> int {
        match self {
            Prefix::Milli => 1,
            Prefix::One => 1000,
            Prefix::OneButBinary => 1000,
            Prefix::Kilo => 1_000_000,
            Prefix::Kibi => 1_024_000,
            Prefix::Mega => 1_000_000_000,
            Prefix::Mebi => 1_048_576_000,
            Prefix::Giga => 1_000_000_000_000,
            Prefix::Gibi => 1_073_741_824_000,
            Prefix::Tera => 1_000_000_000_000_000,
            Prefix::Tebi => 1_099_511_627_776_000,
            Prefix::Peta => 1_000_000_000_000_000_000,
            Prefix::Pebi => 1_125_899_906_842_624_000,
        }
    }

    /// The prefix's multiplier, scaled by 1000 so that `Milli` is exact.
    pub fn mult1000(&self) -> (r: i128)
        ensures
            r as int == self.mult1000_spec(),
            1 <= r <= 1_125_899_906_842_624_000,
    {
        match self {
            Prefix::Milli => 1,
            Prefix::One => 1000,
            Prefix::OneButBinary => 1000,
            Prefix::Kilo => 1_000_000,
            Prefix::Kibi => 1_024_000,
            Prefix::Mega => 1_000_000_000,
            Prefix::Mebi => 1_048_576_000,
            Prefix::Giga => 1_000_000_000_000,
            Prefix::Gibi => 1_073_741_824_000,
            Prefix::Tera => 1_000_000_000_000_000,
            Prefix::Tebi => 1_099_511_627_776_000,
            Prefix::Peta => 1_000_000_000_000_000_000,
            Prefix::Pebi => 1_125_899_906_842_624_000,
        }
    }

    /// Whether the prefix belongs to the binary family.
    pub open spec fn is_binary_spec(self) -> bool {
        match self {
            Prefix::OneButBinary
            | Prefix::Kibi
            | Prefix::Mebi
            | Prefix::Gibi
            | Prefix::Tebi
            | Prefix::Pebi => true,
            _ => false,
        }
    }

    /// Whether the prefix belongs to the binary family.
    #[verifier::when_used_as_spec(is_binary_spec)]
    pub fn is_binary(self) -> (r: bool)
        ensures
            r == self.is_binary_spec(),
    {
        match self {
            Prefix::OneButBinary
            | Prefix::Kibi
            | Prefix::Mebi
            | Prefix::Gibi
            | Prefix::Tebi
            | Prefix::Pebi => true,
            _ => false,
        }
    }

    /// The smallest prefix of the enumeration.
    pub fn min_available() -> (r: Prefix)
        ensures
            r == Prefix::Milli,
    {
        Prefix::Milli
    }

    /// The largest prefix of the enumeration.
    pub fn max_available() -> (r: Prefix)
        ensures
            r == Prefix::Pebi,
    {
        Prefix::Pebi
    }

    /// What clamping `self` into the window `[lo, hi]` yields.
    pub open spec fn clamp_spec(self, lo: Prefix, hi: Prefix) -> Prefix {
        if self.rank_spec() < lo.rank_spec() {
            lo
        } else if self.rank_spec() > hi.rank_spec() {
            hi
        } else {
            self
        }
    }

    /// Bound the prefix into the closed window `[lo, hi]` of the order.
    pub fn clamp(self, lo: Prefix, hi: Prefix) -> (r: Prefix)
        ensures
            r == self.clamp_spec(lo, hi),
    {
        if self.rank() < lo.rank() {
            lo
        } else if self.rank() > hi.rank() {
            hi
        } else {
            self
        }
    }

    /// The decimal prefix selected by engineering steps of 1000 for a unit
    /// count: the largest decimal prefix whose multiplier is at most the
    /// magnitude, `One` for zero, `Milli` below the smallest step.
    pub open spec fn eng_spec(units: int) -> Prefix {
        let m = abs(units) as int;
        if units == 0 {
            Prefix::One
        } else if m >= Prefix::Peta.mult1000_spec() * 1_000_000 {
            Prefix::Peta
        } else if m >= Prefix::Tera.mult1000_spec() * 1_000_000 {
            Prefix::Tera
        } else if m >= Prefix::Giga.mult1000_spec() * 1_000_000 {
            Prefix::Giga
        } else if m >= Prefix::Mega.mult1000_spec() * 1_000_000 {
            Prefix::Mega
        } else if m >= Prefix::Kilo.mult1000_spec() * 1_000_000 {
            Prefix::Kilo
        } else if m >= Prefix::One.mult1000_spec() * 1_000_000 {
            Prefix::One
        } else {
            Prefix::Milli
        }
    }

    /// Select the decimal prefix for a value by engineering steps of 1000.
    pub fn eng(v: Fixed) -> (r: Prefix)
        requires
            v.bounded(0x4000_0000_0000_0000_0000_0000_0000_0000),
        ensures
            r == Prefix::eng_spec(v.units as int),
    {
        let m: i128 = if v.units < 0 {
            -v.units
        } else {
            v.units
        };
        if v.units == 0 {
            Prefix::One
        } else if m >= 1_000_000_000_000_000_000_000_000 {
            Prefix::Peta
        } else if m >= 1_000_000_000_000_000_000_000 {
            Prefix::Tera
        } else if m >= 1_000_000_000_000_000_000 {
            Prefix::Giga
        } else if m >= 1_000_000_000_000_000 {
            Prefix::Mega
        } else if m >= 1_000_000_000_000 {
            Prefix::Kilo
        } else if m >= 1_000_000_000 {
            Prefix::One
        } else {
            Prefix::Milli
        }
    }

    /// The binary prefix selected by engineering steps of 1024: the largest
    /// binary prefix whose multiplier is at most the magnitude, the binary
    /// identity for zero and for anything below one kibi.
    pub open spec fn eng_binary_spec(units: int) -> Prefix {
        let m = abs(units) as int;
        if m >= Prefix::Pebi.mult1000_spec() * 1_000_000 {
            Prefix::Pebi
        } else if m >= Prefix::Tebi.mult1000_spec() * 1_000_000 {
            Prefix::Tebi
        } else if m >= Prefix::Gibi.mult1000_spec() * 1_000_000 {
            Prefix::Gibi
        } else if m >= Prefix::Mebi.mult1000_spec() * 1_000_000 {
            Prefix::Mebi
        } else if m >= Prefix::Kibi.mult1000_spec() * 1_000_000 {
            Prefix::Kibi
        } else {
            Prefix::OneButBinary
        }
    }

    /// Select the binary prefix for a value by engineering steps of 1024.
    pub fn eng_binary(v: Fixed) -> (r: Prefix)
        requires
            v.bounded(0x4000_0000_0000_0000_0000_0000_0000_0000),
        ensures
            r == Prefix::eng_binary_spec(v.units as int),
    {
        let m: i128 = if v.units < 0 {
            -v.units
        } else {
            v.units
        };
        if m >= 1_125_899_906_842_624_000_000_000 {
            Prefix::Pebi
        } else if m >= 1_099_511_627_776_000_000_000 {
            Prefix::Tebi
        } else if m >= 1_073_741_824_000_000_000 {
            Prefix::Gibi
        } else if m >= 1_048_576_000_000_000 {
            Prefix::Mebi
        } else if m >= 1_024_000_000_000 {
            Prefix::Kibi
        } else {
            Prefix::OneButBinary
        }
    }

    /// What applying the prefix to a unit count yields: the count divided by
    /// the multiplier, rounded half to even.
    pub open spec fn apply_spec(self, units: int) -> int {
        rhe(units * 1000, self.mult1000_spec())
    }

    /// Scale a value into this prefix's units (divide by the multiplier,
    /// rounding half to even).
    pub fn apply(self, v: Fixed) -> (r: Fixed)
        requires
            v.bounded(0x1_0000_0000_0000_0000_0000_0000_0000),
        ensures
            r.units as int == self.apply_spec(v.units as int),
            abs(r.units as int) <= abs(v.units as int) * 1000 + 1,
    {
        let m = self.mult1000();
        let r = rhe_i128(v.units * 1000, m);
        proof {
            let a = v.units as int * 1000;
            let d = self.mult1000_spec();
            if a >= 0 {
                lemma_rhe_bound(a, d);
            } else {
                lemma_rhe_neg(-a, d);
                lemma_rhe_bound(-a, d);
            }
        }
        Fixed { units: r }
    }

    /// The binary-family counterpart of a prefix: the binary prefix of the
    /// nearest not-smaller multiplier; binary prefixes stay as they are.
    pub open spec fn to_binary_spec(self) -> Prefix {
        match self {
            Prefix::Milli => Prefix::OneButBinary,
            Prefix::One => Prefix::OneButBinary,
            Prefix::Kilo => Prefix::Kibi,
            Prefix::Mega => Prefix::Mebi,
            Prefix::Giga => Prefix::Gibi,
            Prefix::Tera => Prefix::Tebi,
            Prefix::Peta => Prefix::Pebi,
            _ => self,
        }
    }

    /// The binary-family counterpart of a prefix.
    pub fn to_binary(self) -> (r: Prefix)
        ensures
            r == self.to_binary_spec(),
            r.is_binary_spec(),
    {
        match self {
            Prefix::Milli => Prefix::OneButBinary,
            Prefix::One => Prefix::OneButBinary,
            Prefix::Kilo => Prefix::Kibi,
            Prefix::Mega => Prefix::Mebi,
            Prefix::Giga => Prefix::Gibi,
            Prefix::Tera => Prefix::Tebi,
            Prefix::Peta => Prefix::Pebi,
            _ => self,
        }
    }

    /// The characters of the prefix's display symbol.
    pub open spec fn symbol_spec(self) -> Seq<char> {
        match self {
            Prefix::Milli => seq!['m'],
            Prefix::One => Seq::empty(),
            Prefix::OneButBinary => Seq::empty(),
            Prefix::Kilo => seq!['K'],
            Prefix::Kibi => seq!['K', 'i'],
            Prefix::Mega => seq!['M'],
            Prefix::Mebi => seq!['M', 'i'],
            Prefix::Giga => seq!['G'],
            Prefix::Gibi => seq!['G', 'i'],
            Prefix::Tera => seq!['T'],
            Prefix::Tebi => seq!['T', 'i'],
            Prefix::Peta => seq!['P'],
            Prefix::Pebi => seq!['P', 'i'],
        }
    }

    /// Append the prefix's display symbol to an output buffer.
    pub fn push_symbol(self, out: &mut Vec<char>)
        ensures
            final(out)@ == old(out)@ + self.symbol_spec(),
    {
        match self {
            Prefix::Milli => out.push('m'),
            Prefix::One => (),
            Prefix::OneButBinary => (),
            Prefix::Kilo => out.push('K'),
            Prefix::Kibi => {
                out.push('K');
                out.push('i');
            },
            Prefix::Mega => out.push('M'),
            Prefix::Mebi => {
                out.push('M');
                out.push('i');
            },
            Prefix::Giga => out.push('G'),
            Prefix::Gibi => {
                out.push('G');
                out.push('i');
            },
            Prefix::Tera => out.push('T'),
            Prefix::Tebi => {
                out.push('T');
                out.push('i');
            },
            Prefix::Peta => out.push('P'),
            Prefix::Pebi => {
                out.push('P');
                out.push('i');
            },
        }
        proof {
            assert(out@ =~= old(out)@ + self.symbol_spec());
        }
    }
}

/// The prefix a configuration string names, if any (`1` is the decimal
/// identity, `1i` the binary one).
pub open spec fn prefix_of_str(s: Seq<char>) -> Option<Prefix> {
    if s == "m"@ {
        Some(Prefix::Milli)
    } else if s == "1"@ {
        Some(Prefix::One)
    } else if s == "1i"@ {
        Some(Prefix::OneButBinary)
    } else if s == "K"@ {
        Some(Prefix::Kilo)
    } else if s == "Ki"@ {
        Some(Prefix::Kibi)
    } else if s == "M"@ {
        Some(Prefix::Mega)
    } else if s == "Mi"@ {
        Some(Prefix::Mebi)
    } else if s == "G"@ {
        Some(Prefix::Giga)
    } else if s == "Gi"@ {
        Some(Prefix::Gibi)
    } else if s == "T"@ {
        Some(Prefix::Tera)
    } else if s == "Ti"@ {
        Some(Prefix::Tebi)
    } else if s == "P"@ {
        Some(Prefix::Peta)
    } else if s == "Pi"@ {
        Some(Prefix::Pebi)
    } else {
        None
    }
}

/// Parse a prefix symbol.
pub fn parse_prefix(s: &str) -> (r: Option<Prefix>)
    ensures
        r == prefix_of_str(s@),
{
    if crate::text::str_eq(s, "m") {
        Some(Prefix::Milli)
    } else if crate::text::str_eq(s, "1") {
        Some(Prefix::One)
    } else if crate::text::str_eq(s, "1i") {
        Some(Prefix::OneButBinary)
    } else if crate::text::str_eq(s, "K") {
        Some(Prefix::Kilo)
    } else if crate::text::str_eq(s, "Ki") {
        Some(Prefix::Kibi)
    } else if crate::text::str_eq(s, "M") {
        Some(Prefix::Mega)
    } else if crate::text::str_eq(s, "Mi") {
        Some(Prefix::Mebi)
    } else if crate::text::str_eq(s, "G") {
        Some(Prefix::Giga)
    } else if crate::text::str_eq(s, "Gi") {
        Some(Prefix::Gibi)
    } else if crate::text::str_eq(s, "T") {
        Some(Prefix::Tera)
    } else if crate::text::str_eq(s, "Ti") {
        Some(Prefix::Tebi)
    } else if crate::text::str_eq(s, "P") {
        Some(Prefix::Peta)
    } else if crate::text::str_eq(s, "Pi") {
        Some(Prefix::Pebi)
    } else {
        None
    }
}

} // verus!
