//! Physical units of electrical quantities.

use vstd::prelude::*;
use crate::text::str_eq;

verus! {

/// The text `s` in lower case, as `str::to_lowercase` gives it.
pub uninterp spec fn lowercase_of(s: Seq<char>) -> Seq<char>;

/// Calls `str::to_lowercase`: the lower-case form of `s` by Unicode's
/// rules, which depend on `s` alone.
#[verifier::external_body]
pub(crate) fn to_lowercase(s: &str) -> (r: String)
    ensures
        r@ == lowercase_of(s@),
{
    s.to_lowercase()
}

/// A physical unit.
#[derive(Debug, Clone, Copy, PartialEq, Eq, Hash, Structural)]
pub enum Unit {
    /// No unit.
    Dimensionless,
    /// Volts (V), electric potential.
    Volt,
    /// Amperes (A), electric current.
    Ampere,
    /// Ohms (Ω), resistance.
    Ohm,
    /// Farads (F), capacitance.
    Farad,
    /// Henrys (H), inductance.
    Henry,
    /// Watts (W), power.
    Watt,
    /// Hertz (Hz), frequency.
    Hertz,
    /// Seconds (s).
    Second,
    /// Meters (m).
    Meter,
    /// Millimeters (mm).
    Millimeter,
}

/// The symbol of a unit.
pub open spec fn unit_symbol(u: Unit) -> Seq<char> {
    match u {
        Unit::Dimensionless => ""@,
        Unit::Volt => "V"@,
        Unit::Ampere => "A"@,
        Unit::Ohm => "Ω"@,
        Unit::Farad => "F"@,
        Unit::Henry => "H"@,
        Unit::Watt => "W"@,
        Unit::Hertz => "Hz"@,
        Unit::Second => "s"@,
        Unit::Meter => "m"@,
        Unit::Millimeter => "mm"@,
    }
}

/// The name of a unit.
pub open spec fn unit_name(u: Unit) -> Seq<char> {
    match u {
        Unit::Dimensionless => "dimensionless"@,
        Unit::Volt => "volt"@,
        Unit::Ampere => "ampere"@,
        Unit::Ohm => "ohm"@,
        Unit::Farad => "farad"@,
        Unit::Henry => "henry"@,
        Unit::Watt => "watt"@,
        Unit::Hertz => "hertz"@,
        Unit::Second => "second"@,
        Unit::Meter => "meter"@,
        Unit::Millimeter => "millimeter"@,
    }
}

/// Whether two units can be converted into each other: equal units, and
/// meters with millimeters.
pub open spec fn compatible(a: Unit, b: Unit) -> bool {
    a == b || (a == Unit::Meter && b == Unit::Millimeter) || (a == Unit::Millimeter && b == Unit::Meter)
}

/// The unit of a product, where it is supported.
pub open spec fn product_unit(a: Unit, b: Unit) -> Option<Unit> {
    if b == Unit::Dimensionless {
        Some(a)
    } else if a == Unit::Dimensionless {
        Some(b)
    } else if (a == Unit::Volt && b == Unit::Ampere) || (a == Unit::Ampere && b == Unit::Volt) {
        Some(Unit::Watt)
    } else if (a == Unit::Ohm && b == Unit::Ampere) || (a == Unit::Ampere && b == Unit::Ohm) {
        Some(Unit::Volt)
    } else {
        None
    }
}

/// The unit of a quotient, where it is supported.
pub open spec fn quotient_unit(a: Unit, b: Unit) -> Option<Unit> {
    if b == Unit::Dimensionless {
        Some(a)
    } else if a == b {
        Some(Unit::Dimensionless)
    } else if a == Unit::Volt && b == Unit::Ampere {
        Some(Unit::Ohm)
    } else if a == Unit::Volt && b == Unit::Ohm {
        Some(Unit::Ampere)
    } else if a == Unit::Watt && b == Unit::Volt {
        Some(Unit::Ampere)
    } else if a == Unit::Watt && b == Unit::Ampere {
        Some(Unit::Volt)
    } else {
        None
    }
}

/// The unit a lower-case unit name stands for.
pub open spec fn unit_of_lower(l: Seq<char>) -> Option<Unit> {
    if l == ""@ || l == "1"@ {
        Some(Unit::Dimensionless)
    } else if l == "v"@ || l == "volt"@ || l == "volts"@ {
        Some(Unit::Volt)
    } else if l == "a"@ || l == "amp"@ || l == "ampere"@ || l == "amperes"@ {
        Some(Unit::Ampere)
    } else if l == "ohm"@ || l == "ohms"@ || l == "ω"@ {
        Some(Unit::Ohm)
    } else if l == "f"@ || l == "farad"@ || l == "farads"@ {
        Some(Unit::Farad)
    } else if l == "h"@ || l == "henry"@ || l == "henrys"@ || l == "henries"@ {
        Some(Unit::Henry)
    } else if l == "w"@ || l == "watt"@ || l == "watts"@ {
        Some(Unit::Watt)
    } else if l == "hz"@ || l == "hertz"@ {
        Some(Unit::Hertz)
    } else if l == "s"@ || l == "sec"@ || l == "second"@ || l == "seconds"@ {
        Some(Unit::Second)
    } else if l == "m"@ || l == "meter"@ || l == "meters"@ {
        Some(Unit::Meter)
    } else if l == "mm"@ || l == "millimeter"@ || l == "millimeters"@ {
        Some(Unit::Millimeter)
    } else {
        None
    }
}

impl Unit {
    /// The unit's symbol.
    pub fn symbol(&self) -> (s: &'static str)
        ensures
            s@ == unit_symbol(*self),
    {
        match self {
            Unit::Dimensionless => "",
            Unit::Volt => "V",
            Unit::Ampere => "A",
            Unit::Ohm => "Ω",
            Unit::Farad => "F",
            Unit::Henry => "H",
            Unit::Watt => "W",
            Unit::Hertz => "Hz",
            Unit::Second => "s",
            Unit::Meter => "m",
            Unit::Millimeter => "mm",
        }
    }

    /// The unit's full name.
    pub fn name(&self) -> (s: &'static str)
        ensures
            s@ == unit_name(*self),
    {
        match self {
            Unit::Dimensionless => "dimensionless",
            Unit::Volt => "volt",
            Unit::Ampere => "ampere",
            Unit::Ohm => "ohm",
            Unit::Farad => "farad",
            Unit::Henry => "henry",
            Unit::Watt => "watt",
            Unit::Hertz => "hertz",
            Unit::Second => "second",
            Unit::Meter => "meter",
            Unit::Millimeter => "millimeter",
        }
    }

    /// Whether a quantity in this unit can be converted to `other`.
    pub fn is_compatible_with(&self, other: &Unit) -> (b: bool)
        ensures
            b == compatible(*self, *other),
    {
        *self == *other
            || (*self == Unit::Meter && *other == Unit::Millimeter)
            || (*self == Unit::Millimeter && *other == Unit::Meter)
    }

    /// The base unit: meters for millimeters, the unit itself otherwise.
    pub fn base_unit(&self) -> (u: Unit)
        ensures
            u == (if *self == Unit::Millimeter { Unit::Meter } else { *self }),
    {
        match self {
            Unit::Millimeter => Unit::Meter,
            other => *other,
        }
    }

    /// Whether this is no unit.
    pub fn is_dimensionless(&self) -> (b: bool)
        ensures
            b == (*self == Unit::Dimensionless),
    {
        matches!(self, Unit::Dimensionless)
    }

    /// The unit of a product of quantities in `left` and `right`, where supported.
    pub fn multiply(left: &Unit, right: &Unit) -> (u: Option<Unit>)
        ensures
            u == product_unit(*left, *right),
    {
        match (left, right) {
            (u, Unit::Dimensionless) | (Unit::Dimensionless, u) => Some(*u),
            (Unit::Volt, Unit::Ampere) | (Unit::Ampere, Unit::Volt) => Some(Unit::Watt),
            (Unit::Ohm, Unit::Ampere) | (Unit::Ampere, Unit::Ohm) => Some(Unit::Volt),
            _ => None,
        }
    }

    /// The unit of a quotient of quantities in `left` and `right`, where supported.
    pub fn divide(left: &Unit, right: &Unit) -> (u: Option<Unit>)
        ensures
            u == quotient_unit(*left, *right),
    {
        if *right == Unit::Dimensionless {
            return Some(*left);
        }
        if *left == *right {
            return Some(Unit::Dimensionless);
        }
        match (left, right) {
            (Unit::Volt, Unit::Ampere) => Some(Unit::Ohm),
            (Unit::Volt, Unit::Ohm) => Some(Unit::Ampere),
            (Unit::Watt, Unit::Volt) => Some(Unit::Ampere),
            (Unit::Watt, Unit::Ampere) => Some(Unit::Volt),
            _ => None,
        }
    }

    /// The unit a unit name stands for, in any case (`V`, `ohm`, `Hz`, ...).
    pub fn from_str(s: &str) -> (u: Option<Unit>)
        ensures
            u == unit_of_lower(lowercase_of(s@)),
    {
        let l = to_lowercase(s);
        Self::from_lower(l.as_str())
    }

    /// The unit a lower-case unit name stands for.
    pub fn from_lower(l: &str) -> (u: Option<Unit>)
        ensures
            u == unit_of_lower(l@),
    {
        if str_eq(l, "") || str_eq(l, "1") {
            Some(Unit::Dimensionless)
        } else if str_eq(l, "v") || str_eq(l, "volt") || str_eq(l, "volts") {
            Some(Unit::Volt)
        } else if str_eq(l, "a") || str_eq(l, "amp") || str_eq(l, "ampere") || str_eq(l, "amperes") {
            Some(Unit::Ampere)
        } else if str_eq(l, "ohm") || str_eq(l, "ohms") || str_eq(l, "ω") {
            Some(Unit::Ohm)
        } else if str_eq(l, "f") || str_eq(l, "farad") || str_eq(l, "farads") {
            Some(Unit::Farad)
        } else if str_eq(l, "h") || str_eq(l, "henry") || str_eq(l, "henrys") || str_eq(l, "henries") {
            Some(Unit::Henry)
        } else if str_eq(l, "w") || str_eq(l, "watt") || str_eq(l, "watts") {
            Some(Unit::Watt)
        } else if str_eq(l, "hz") || str_eq(l, "hertz") {
            Some(Unit::Hertz)
        } else if str_eq(l, "s") || str_eq(l, "sec") || str_eq(l, "second") || str_eq(l, "seconds") {
            Some(Unit::Second)
        } else if str_eq(l, "m") || str_eq(l, "meter") || str_eq(l, "meters") {
            Some(Unit::Meter)
        } else if str_eq(l, "mm") || str_eq(l, "millimeter") || str_eq(l, "millimeters") {
            Some(Unit::Millimeter)
        } else {
            None
        }
    }
}

impl Default for Unit {
    /// No unit.
    fn default() -> (u: Self)
        ensures
            u == Unit::Dimensionless,
    {
        Unit::Dimensionless
    }
}

/// Errors of quantity arithmetic.
#[derive(Debug, Clone, PartialEq)]
pub enum QuantityError {
    /// The units cannot be combined.
    IncompatibleUnits { left: Unit, right: Unit },
    /// An interval could not be formed.
    IntervalError(String),
}

/// Errors of tolerance specifications.
#[derive(Debug, Clone, PartialEq)]
pub enum ToleranceError {
    /// The nominal value and the tolerance have incompatible units.
    IncompatibleUnits { nominal: Unit, tolerance: Unit },
    /// The range's minimum exceeds its maximum.
    InvalidRange,
}

/// Compatibility of units is symmetric.
pub proof fn lemma_compatible_symmetric(a: Unit, b: Unit)
    ensures
        compatible(a, b) == compatible(b, a),
{
}

/// Every unit is compatible with its base unit.
pub proof fn lemma_compatible_with_base(u: Unit)
    ensures
        compatible(u, if u == Unit::Millimeter { Unit::Meter } else { u }),
{
}

/// Multiplying is commutative wherever it is supported.
pub proof fn lemma_product_commutative(a: Unit, b: Unit)
    ensures
        product_unit(a, b) == product_unit(b, a),
{
}

/// Dividing by no unit, or multiplying by it, leaves a unit as it is.
pub proof fn lemma_dimensionless_identity(u: Unit)
    ensures
        product_unit(u, Unit::Dimensionless) == Some(u),
        quotient_unit(u, Unit::Dimensionless) == Some(u),
{
}

} // verus!
