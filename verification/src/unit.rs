//! Physical units. Units of one dimension are convertible through fixed
//! integer factors relative to the dimension's base; a unit can also restrict
//! which prefixes may stand next to it.

use vstd::prelude::*;
use crate::error::FormatError;
use crate::fixed::{Fixed, rhe, rhe_i128};
use crate::prefix::Prefix;

verus! {

/// The physical dimension a unit measures.
#[derive(Clone, Copy, Debug, PartialEq, Eq, Structural)]
pub enum Dimension {
    Scalar,
    Information,
    Frequency,
    Fraction,
    Degrees,
    Time,
    Power,
}

/// A physical unit tag for a numeric value.
#[derive(Clone, Copy, Debug, PartialEq, Eq, Structural)]
pub enum Unit {
    NoUnit,
    Bytes,
    Bits,
    Hertz,
    Percents,
    Degrees,
    Seconds,
    Watts,
}

impl Unit {
    /// The dimension the unit belongs to.
    pub open spec fn dimension_spec(self) -> Dimension {
        match self {
            Unit::NoUnit => Dimension::Scalar,
            Unit::Bytes => Dimension::Information,
            Unit::Bits => Dimension::Information,
            Unit::Hertz => Dimension::Frequency,
            Unit::Percents => Dimension::Fraction,
            Unit::Degrees => Dimension::Degrees,
            Unit::Seconds => Dimension::Time,
            Unit::Watts => Dimension::Power,
        }
    }

    /// The dimension the unit belongs to.
    #[verifier::when_used_as_spec(dimension_spec)]
    pub fn dimension(self) -> (r: Dimension)
        ensures
            r == self.dimension_spec(),
    {
        match self {
            Unit::NoUnit => Dimension::Scalar,
            Unit::Bytes => Dimension::Information,
            Unit::Bits => Dimension::Information,
            Unit::Hertz => Dimension::Frequency,
            Unit::Percents => Dimension::Fraction,
            Unit::Degrees => Dimension::Degrees,
            Unit::Seconds => Dimension::Time,
            Unit::Watts => Dimension::Power,
        }
    }

    /// The unit's fixed factor relative to its dimension's base unit.
    pub open spec fn factor_spec(self) -> int {
        match self {
            Unit::Bytes => 8,
            _ => 1,
        }
    }

    /// The unit's fixed factor relative to its dimension's base unit.
    pub fn factor(self) -> (r: i128)
        ensures
            r as int == self.factor_spec(),
            1 <= r <= 8,
    {
        match self {
            Unit::Bytes => 8,
            _ => 1,
        }
    }

    /// What converting a unit count from `self` into `target` yields:
    /// multiply by this unit's factor, divide by the target's, rounding
    /// half to even.
    pub open spec fn convert_units_spec(self, units: int, target: Unit) -> int {
        rhe(units * self.factor_spec(), target.factor_spec())
    }

    /// Rescale a value from `self` into `target`. Fails exactly when the two
    /// units measure different dimensions.
    pub fn convert(self, v: Fixed, target: Unit) -> (r: Result<Fixed, FormatError>)
        requires
            v.wf(),
        ensures
            r is Ok <==> self.dimension_spec() == target.dimension_spec(),
            r matches Ok(c) ==> c.units as int == self.convert_units_spec(v.units as int, target)
                && c.bounded(8 * crate::fixed::UNITS_MAX + 1),
            r matches Err(e) ==> e == FormatError::UnitMismatch,
    {
        if self.dimension() != target.dimension() {
            return Err(FormatError::UnitMismatch);
        }
        let f = self.factor();
        proof {
            assert(-(8 * crate::fixed::UNITS_MAX) <= v.units as int * f as int <= 8
                * crate::fixed::UNITS_MAX) by (nonlinear_arith)
                requires
                    -crate::fixed::UNITS_MAX <= v.units as int <= crate::fixed::UNITS_MAX,
                    1 <= f as int <= 8,
            ;
        }
        let a = v.units * f;
        let q = rhe_i128(a, target.factor());
        proof {
            let ai = v.units as int * self.factor_spec();
            let d = target.factor_spec();
            if ai >= 0 {
                crate::fixed::lemma_rhe_bound(ai, d);
            } else {
                crate::fixed::lemma_rhe_neg(-ai, d);
                crate::fixed::lemma_rhe_bound(-ai, d);
            }
        }
        Ok(Fixed { units: q })
    }

    /// Restrict a selected prefix to the prefixes this unit may carry:
    /// information units take the binary counterpart, fractions and degrees
    /// are never prefixed, all other units keep the selection.
    pub open spec fn clamp_prefix_spec(self, p: Prefix) -> Prefix {
        match self.dimension_spec() {
            Dimension::Information => p.to_binary_spec(),
            Dimension::Fraction => Prefix::One,
            Dimension::Degrees => Prefix::One,
            _ => p,
        }
    }

    /// Restrict a selected prefix to the prefixes this unit may carry.
    pub fn clamp_prefix(self, p: Prefix) -> (r: Prefix)
        ensures
            r == self.clamp_prefix_spec(p),
    {
        match self.dimension() {
            Dimension::Information => p.to_binary(),
            Dimension::Fraction => Prefix::One,
            Dimension::Degrees => Prefix::One,
            _ => p,
        }
    }

    /// The characters of the unit's display symbol.
    pub open spec fn symbol_spec(self) -> Seq<char> {
        match self {
            Unit::NoUnit => Seq::empty(),
            Unit::Bytes => seq!['B'],
            Unit::Bits => seq!['b'],
            Unit::Hertz => seq!['H', 'z'],
            Unit::Percents => seq!['%'],
            Unit::Degrees => seq!['\u{00b0}'],
            Unit::Seconds => seq!['s'],
            Unit::Watts => seq!['W'],
        }
    }

    /// Append the unit's display symbol to an output buffer.
    pub fn push_symbol(self, out: &mut Vec<char>)
        ensures
            final(out)@ == old(out)@ + self.symbol_spec(),
    {
        match self {
            Unit::NoUnit => (),
            Unit::Bytes => out.push('B'),
            Unit::Bits => out.push('b'),
            Unit::Hertz => {
                out.push('H');
                out.push('z');
            },
            Unit::Percents => out.push('%'),
            Unit::Degrees => out.push('\u{00b0}'),
            Unit::Seconds => out.push('s'),
            Unit::Watts => out.push('W'),
        }
        proof {
            assert(out@ =~= old(out)@ + self.symbol_spec());
        }
    }
}

/// The unit a configuration string names, if any.
pub open spec fn unit_of_str(s: Seq<char>) -> Option<Unit> {
    if s == "B"@ {
        Some(Unit::Bytes)
    } else if s == "b"@ {
        Some(Unit::Bits)
    } else if s == "Hz"@ {
        Some(Unit::Hertz)
    } else if s == "%"@ {
        Some(Unit::Percents)
    } else if s == "deg"@ {
        Some(Unit::Degrees)
    } else if s == "s"@ {
        Some(Unit::Seconds)
    } else if s == "W"@ {
        Some(Unit::Watts)
    } else {
        None
    }
}

/// Parse a unit symbol.
pub fn parse_unit(s: &str) -> (r: Option<Unit>)
    ensures
        r == unit_of_str(s@),
{
    if crate::text::str_eq(s, "B") {
        Some(Unit::Bytes)
    } else if crate::text::str_eq(s, "b") {
        Some(Unit::Bits)
    } else if crate::text::str_eq(s, "Hz") {
        Some(Unit::Hertz)
    } else if crate::text::str_eq(s, "%") {
        Some(Unit::Percents)
    } else if crate::text::str_eq(s, "deg") {
        Some(Unit::Degrees)
    } else if crate::text::str_eq(s, "s") {
        Some(Unit::Seconds)
    } else if crate::text::str_eq(s, "W") {
        Some(Unit::Watts)
    } else {
        None
    }
}

} // verus!
