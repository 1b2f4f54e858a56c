//! Measurement units and exact unit conversion.
//!
//! The five supported units are exact rational multiples of one another:
//! every unit is a whole number of micrometers (an inch is exactly 2.54 cm).
//! Converting a length multiplies by the ratio of the two factors; converting
//! an area multiplies by the ratio of the squared factors. Conversions are
//! therefore exact and reversible.

use vstd::prelude::*;
use crate::rat::{Rat, GRat, g_eqv, g_mul, mul_spec, norm_rat};

verus! {

/// Measurement units supported by the system.
#[derive(Debug, Clone, Copy, PartialEq, Eq, Structural)]
pub enum Unit {
    Yards,
    Feet,
    Inches,
    Meters,
    Centimeters,
}

/// Whether a value quantifies an area or a length.
#[derive(Debug, Clone, Copy, PartialEq, Eq, Structural)]
pub enum UnitMagnitude {
    Area,
    Length,
}

/// Micrometers in one unit of `u`.
pub open spec fn unit_factor(u: Unit) -> int {
    match u {
        Unit::Yards => 914400,
        Unit::Feet => 304800,
        Unit::Inches => 25400,
        Unit::Meters => 1000000,
        Unit::Centimeters => 10000,
    }
}

/// The exact conversion of a length value between two units.
pub open spec fn convert_len_spec(v: GRat, from: Unit, to: Unit) -> GRat {
    g_mul(v, GRat { num: unit_factor(from), den: unit_factor(to) })
}

/// The exact conversion of an area value between two units.
pub open spec fn convert_area_spec(v: GRat, from: Unit, to: Unit) -> GRat {
    g_mul(
        v,
        GRat {
            num: unit_factor(from) * unit_factor(from),
            den: unit_factor(to) * unit_factor(to),
        },
    )
}

/// The stored rational for the length conversion factor from `from` to `to`.
pub open spec fn factor_rat(from: Unit, to: Unit) -> Rat {
    norm_rat(unit_factor(from), unit_factor(to))
}

/// The stored rational for the area conversion factor from `from` to `to`.
pub open spec fn area_factor_rat(from: Unit, to: Unit) -> Rat {
    norm_rat(unit_factor(from) * unit_factor(from), unit_factor(to) * unit_factor(to))
}

impl Unit {
    /// Micrometers in one unit of `self`.
    pub fn factor_um(&self) -> (r: i64)
        ensures
            r as int == unit_factor(*self),
            0 < r <= 1000000,
    {
        match self {
            Unit::Yards => 914400,
            Unit::Feet => 304800,
            Unit::Inches => 25400,
            Unit::Meters => 1000000,
            Unit::Centimeters => 10000,
        }
    }

    /// Convert a length value from this unit to `to`, exactly. `None` only
    /// when the reduced result exceeds the representation bounds.
    pub fn convert(&self, value: &Rat, to: &Unit) -> (r: Option<Rat>)
        requires
            value.wf(),
        ensures
            r == mul_spec(*value, factor_rat(*self, *to)),
            r is Some ==> r->Some_0.wf() && g_eqv(
                r->Some_0@,
                convert_len_spec(value@, *self, *to),
            ),
    {
        let f = Rat::new(self.factor_um(), to.factor_um());
        let fr = f.unwrap();
        let res = value.mul(&fr);
        proof {
            if res is Some {
                crate::rat::lemma_eqv_mul(
                    value@,
                    fr@,
                    value@,
                    GRat { num: unit_factor(*self), den: unit_factor(*to) },
                );
                crate::rat::lemma_mul_pos(value@.den, fr@.den);
                crate::rat::lemma_mul_pos(value@.den, unit_factor(*to));
                crate::rat::lemma_eqv_trans(
                    res->Some_0@,
                    g_mul(value@, fr@),
                    convert_len_spec(value@, *self, *to),
                );
            }
        }
        res
    }

    /// Convert an area value from this unit to `to`, exactly.
    pub fn convert_area(&self, value: &Rat, to: &Unit) -> (r: Option<Rat>)
        requires
            value.wf(),
        ensures
            r == mul_spec(*value, area_factor_rat(*self, *to)),
            r is Some ==> r->Some_0.wf() && g_eqv(
                r->Some_0@,
                convert_area_spec(value@, *self, *to),
            ),
    {
        let ff: i64 = self.factor_um() * self.factor_um();
        let ft: i64 = to.factor_um() * to.factor_um();
        let f = Rat::new(ff, ft);
        let fr = f.unwrap();
        let res = value.mul(&fr);
        proof {
            if res is Some {
                crate::rat::lemma_eqv_mul(
                    value@,
                    fr@,
                    value@,
                    GRat {
                        num: unit_factor(*self) * unit_factor(*self),
                        den: unit_factor(*to) * unit_factor(*to),
                    },
                );
                crate::rat::lemma_mul_pos(value@.den, fr@.den);
                crate::rat::lemma_mul_pos(unit_factor(*to), unit_factor(*to));
                crate::rat::lemma_mul_pos(value@.den, unit_factor(*to) * unit_factor(*to));
                crate::rat::lemma_eqv_trans(
                    res->Some_0@,
                    g_mul(value@, fr@),
                    convert_area_spec(value@, *self, *to),
                );
            }
        }
        res
    }

    /// A length value expressed in this unit.
    pub fn get_unit(&self, value: Rat) -> (r: UnitValue)
        ensures
            r == (UnitValue { value, unit: *self, magnitude: UnitMagnitude::Length }),
    {
        UnitValue { value, unit: *self, magnitude: UnitMagnitude::Length }
    }

    /// An area value expressed in this unit.
    pub fn get_area_unit(&self, value: Rat) -> (r: UnitValue)
        ensures
            r == (UnitValue { value, unit: *self, magnitude: UnitMagnitude::Area }),
    {
        UnitValue { value, unit: *self, magnitude: UnitMagnitude::Area }
    }

    /// The numeric value of a length quantity, expressed in this unit.
    pub fn convert_length_to_unit(&self, length: &UnitValue) -> (r: Option<Rat>)
        requires
            length.value.wf(),
        ensures
            r == mul_spec(length.value, factor_rat(length.unit, *self)),
            r is Some ==> r->Some_0.wf() && g_eqv(
                r->Some_0@,
                convert_len_spec(length.value@, length.unit, *self),
            ),
    {
        length.unit.convert(&length.value, self)
    }

    /// The numeric value of an area quantity, expressed in this unit.
    pub fn convert_area_to_unit(&self, area: &UnitValue) -> (r: Option<Rat>)
        requires
            area.value.wf(),
        ensures
            r == mul_spec(area.value, area_factor_rat(area.unit, *self)),
            r is Some ==> r->Some_0.wf() && g_eqv(
                r->Some_0@,
                convert_area_spec(area.value@, area.unit, *self),
            ),
    {
        area.unit.convert_area(&area.value, self)
    }

    /// Short display form of this unit.
    pub fn display(&self) -> (r: &'static str)
        ensures
            *self == Unit::Yards ==> r@ == "yd"@,
            *self == Unit::Feet ==> r@ == "ft"@,
            *self == Unit::Inches ==> r@ == "in"@,
            *self == Unit::Meters ==> r@ == "m"@,
            *self == Unit::Centimeters ==> r@ == "cm"@,
    {
        match self {
            Unit::Yards => "yd",
            Unit::Feet => "ft",
            Unit::Inches => "in",
            Unit::Meters => "m",
            Unit::Centimeters => "cm",
        }
    }

    /// Full name of this unit.
    pub fn unit_str(&self) -> (r: &'static str)
        ensures
            *self == Unit::Yards ==> r@ == "Yards"@,
            *self == Unit::Feet ==> r@ == "Feet"@,
            *self == Unit::Inches ==> r@ == "Inches"@,
            *self == Unit::Meters ==> r@ == "Meters"@,
            *self == Unit::Centimeters ==> r@ == "Centimeters"@,
    {
        match self {
            Unit::Yards => "Yards",
            Unit::Feet => "Feet",
            Unit::Inches => "Inches",
            Unit::Meters => "Meters",
            Unit::Centimeters => "Centimeters",
        }
    }
}

/// Unit conversion utilities.
pub struct UnitUtils;

impl UnitUtils {
    /// Convert a length value from one unit to another, exactly.
    pub fn convert(value: &Rat, from: Unit, to: Unit) -> (r: Option<Rat>)
        requires
            value.wf(),
        ensures
            r == mul_spec(*value, factor_rat(from, to)),
            r is Some ==> r->Some_0.wf() && g_eqv(
                r->Some_0@,
                convert_len_spec(value@, from, to),
            ),
    {
        from.convert(value, &to)
    }

    /// Convert an area value from one unit to another, exactly.
    pub fn convert_area(value: &Rat, from: Unit, to: Unit) -> (r: Option<Rat>)
        requires
            value.wf(),
        ensures
            r == mul_spec(*value, area_factor_rat(from, to)),
            r is Some ==> r->Some_0.wf() && g_eqv(
                r->Some_0@,
                convert_area_spec(value@, from, to),
            ),
    {
        from.convert_area(value, &to)
    }

    /// All available units.
    pub fn all_units() -> (r: Vec<Unit>)
        ensures
            r@ == seq![
                Unit::Yards,
                Unit::Feet,
                Unit::Inches,
                Unit::Meters,
                Unit::Centimeters,
            ],
    {
        let mut v: Vec<Unit> = Vec::new();
        v.push(Unit::Yards);
        v.push(Unit::Feet);
        v.push(Unit::Inches);
        v.push(Unit::Meters);
        v.push(Unit::Centimeters);
        proof {
            assert(v@ =~= seq![
                Unit::Yards,
                Unit::Feet,
                Unit::Inches,
                Unit::Meters,
                Unit::Centimeters,
            ]);
        }
        v
    }

    /// The imperial units.
    pub fn imperial_units() -> (r: Vec<Unit>)
        ensures
            r@ == seq![Unit::Yards, Unit::Feet, Unit::Inches],
    {
        let mut v: Vec<Unit> = Vec::new();
        v.push(Unit::Yards);
        v.push(Unit::Feet);
        v.push(Unit::Inches);
        proof {
            assert(v@ =~= seq![Unit::Yards, Unit::Feet, Unit::Inches]);
        }
        v
    }

    /// The metric units.
    pub fn metric_units() -> (r: Vec<Unit>)
        ensures
            r@ == seq![Unit::Meters, Unit::Centimeters],
    {
        let mut v: Vec<Unit> = Vec::new();
        v.push(Unit::Meters);
        v.push(Unit::Centimeters);
        proof {
            assert(v@ =~= seq![Unit::Meters, Unit::Centimeters]);
        }
        v
    }
}

/// A scalar quantity together with its unit and magnitude kind.
#[derive(Debug, Clone, Copy, PartialEq)]
pub struct UnitValue {
    pub value: Rat,
    pub unit: Unit,
    pub magnitude: UnitMagnitude,
}

impl UnitValue {
    /// Well-formedness: the stored scalar is a valid rational.
    pub open spec fn wf(self) -> bool {
        self.value.wf()
    }

    /// A quantity of the given magnitude.
    pub fn new(value: Rat, unit: Unit, magnitude: UnitMagnitude) -> (r: UnitValue)
        ensures
            r == (UnitValue { value, unit, magnitude }),
    {
        UnitValue { value, unit, magnitude }
    }

    /// An area quantity.
    pub fn from_area(value: Rat, unit: Unit) -> (r: UnitValue)
        ensures
            r == (UnitValue { value, unit, magnitude: UnitMagnitude::Area }),
    {
        UnitValue { value, unit, magnitude: UnitMagnitude::Area }
    }

    /// A length quantity.
    pub fn from_length(value: Rat, unit: Unit) -> (r: UnitValue)
        ensures
            r == (UnitValue { value, unit, magnitude: UnitMagnitude::Length }),
    {
        UnitValue { value, unit, magnitude: UnitMagnitude::Length }
    }

    /// The numeric value of this quantity expressed in the unit `to`,
    /// converted according to the quantity's magnitude.
    pub fn get_converted_value(&self, to: Unit) -> (r: Option<Rat>)
        requires
            self.wf(),
        ensures
            self.magnitude == UnitMagnitude::Length ==> r == mul_spec(
                self.value,
                factor_rat(self.unit, to),
            ),
            self.magnitude == UnitMagnitude::Area ==> r == mul_spec(
                self.value,
                area_factor_rat(self.unit, to),
            ),
            r is Some ==> r->Some_0.wf(),
    {
        match self.magnitude {
            UnitMagnitude::Length => self.unit.convert(&self.value, &to),
            UnitMagnitude::Area => self.unit.convert_area(&self.value, &to),
        }
    }
}

} // verus!
