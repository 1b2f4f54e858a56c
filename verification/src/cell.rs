//! Per-measurement cache cell.
//!
//! A cell holds a measurement and its derived values: the resolved scale,
//! the cached real-world area and length, and the point count. Each
//! derived field sits in its own poisonable slot, modelling a lock whose
//! prior holder may have terminated abnormally: acquisition returns a
//! typed `PoisonError` instead of crashing. Mutating entry points
//! (`set_scale`, `set_measurement`) surface a poisoned target slot to the
//! caller, while the recompute cascade is best-effort: a poisoned or
//! failing derived slot keeps its previous value and never aborts the
//! caller's primary operation.

use vstd::prelude::*;
use crate::error::{TakeoffError, TakeoffResult};
use crate::measurement::{
    Measurement, MeasurementV, m_wf, m_is_valid, m_point_count, raw_area_spec,
    raw_perimeter_spec,
};
use crate::rat::{div_spec, mul_spec, lemma_mul_pos};
use crate::scale::{Scale, resolve_spec, resolve};
use crate::unit::{UnitValue, UnitMagnitude};

verus! {

/// A poisonable slot: a value behind a lock whose holder may have died.
#[derive(Debug, Clone, Copy, PartialEq)]
pub struct Slot<T> {
    pub value: T,
    pub poisoned: bool,
}

impl<T> Slot<T> {
    /// A fresh, healthy slot.
    pub fn new(value: T) -> (r: Slot<T>)
        ensures
            r.value == value,
            !r.poisoned,
    {
        Slot { value, poisoned: false }
    }

    /// Acquire the slot for reading. Fails exactly when the slot is
    /// poisoned, with a `PoisonError` naming the resource.
    pub fn lock_read(&self, resource: &str) -> (r: Result<&T, TakeoffError>)
        ensures
            r is Ok <==> !self.poisoned,
            r is Ok ==> r->Ok_0 == &self.value,
            r is Err ==> (r->Err_0 matches TakeoffError::PoisonError { resource: s }
                && s@ == resource@),
    {
        if self.poisoned {
            Err(TakeoffError::poison_error(resource))
        } else {
            Ok(&self.value)
        }
    }

    /// Acquire the slot for writing and store `value`. Fails exactly when
    /// the slot is poisoned; the previous value is then retained.
    pub fn lock_write(&mut self, value: T, resource: &str) -> (r: Result<
        T,
        TakeoffError,
    >)
        ensures
            r is Ok <==> !old(self).poisoned,
            old(self).poisoned ==> *final(self) == *old(self) && (r->Err_0
                matches TakeoffError::PoisonError { resource: s } && s@ == resource@),
            !old(self).poisoned ==> final(self).value == value && !final(self).poisoned
                && r->Ok_0 == old(self).value,
    {
        if self.poisoned {
            Err(TakeoffError::poison_error(resource))
        } else {
            let mut incoming = value;
            core::mem::swap(&mut self.value, &mut incoming);
            Ok(incoming)
        }
    }

    /// Mark the slot poisoned, as after a holder's abnormal termination
    /// while holding the lock. The stored value is retained.
    pub fn poison(&mut self)
        ensures
            final(self).value == old(self).value,
            final(self).poisoned,
    {
        self.poisoned = true;
    }
}

/// The mathematical content of a measurement cache cell.
#[verifier::ext_equal]
pub ghost struct MeasCellV {
    pub m: MeasurementV,
    pub scale: Option<Scale>,
    pub scale_poisoned: bool,
    pub area: Option<UnitValue>,
    pub area_poisoned: bool,
    pub length: Option<UnitValue>,
    pub length_poisoned: bool,
    pub points: u64,
}

/// Per-measurement holder of the resolved scale and cached derived values.
#[derive(Debug, Clone, PartialEq)]
pub struct MeasurementCell {
    pub measurement: Measurement,
    pub scale: Slot<Option<Scale>>,
    pub area: Slot<Option<UnitValue>>,
    pub length: Slot<Option<UnitValue>>,
    pub points: u64,
}

impl View for MeasurementCell {
    type V = MeasCellV;

    open spec fn view(&self) -> MeasCellV {
        MeasCellV {
            m: self.measurement@,
            scale: self.scale.value,
            scale_poisoned: self.scale.poisoned,
            area: self.area.value,
            area_poisoned: self.area.poisoned,
            length: self.length.value,
            length_poisoned: self.length.poisoned,
            points: self.points,
        }
    }
}

impl MeasCellV {
    /// Whether the held geometry is valid.
    pub open spec fn m_valid(self) -> bool {
        m_is_valid(self.m)
    }
}

/// Well-formedness of a cell's content.
pub open spec fn cell_wf(c: MeasCellV) -> bool {
    &&& m_wf(c.m)
    &&& (c.scale is Some ==> c.scale->Some_0.wf())
    &&& (c.area is Some ==> c.area->Some_0.wf())
    &&& (c.length is Some ==> c.length->Some_0.wf())
}

/// The pinned scaled area for a measurement under an assigned scale:
/// `None` for a failed derivation, `Some(cache)` otherwise, where an
/// unassigned scale yields an absent cached value (never zero).
pub open spec fn calc_area_spec(m: MeasurementV, sc: Option<Scale>) -> Option<
    Option<UnitValue>,
> {
    match sc {
        None => Some(None),
        Some(s) => {
            let d = s.spec_definition();
            if d.pixel_distance@.num <= 0 || d.real_distance@.num <= 0 {
                None
            } else if div_spec(d.pixel_distance, d.real_distance) is None {
                None
            } else if !m_is_valid(m) {
                None
            } else if raw_area_spec(m) is None {
                None
            } else {
                let ratio = div_spec(d.pixel_distance, d.real_distance)->Some_0;
                let raw = raw_area_spec(m)->Some_0;
                let r2o = mul_spec(ratio, ratio);
                if r2o is None {
                    None
                } else if div_spec(raw, r2o->Some_0) is None {
                    None
                } else {
                    Some(
                        Some(
                            UnitValue {
                                value: div_spec(raw, r2o->Some_0)->Some_0,
                                unit: d.unit,
                                magnitude: UnitMagnitude::Area,
                            },
                        ),
                    )
                }
            }
        },
    }
}

/// The pinned scaled length for a measurement under an assigned scale.
pub open spec fn calc_length_spec(m: MeasurementV, sc: Option<Scale>) -> Option<
    Option<UnitValue>,
> {
    match sc {
        None => Some(None),
        Some(s) => {
            let d = s.spec_definition();
            if d.pixel_distance@.num <= 0 || d.real_distance@.num <= 0 {
                None
            } else if div_spec(d.pixel_distance, d.real_distance) is None {
                None
            } else if !m_is_valid(m) {
                None
            } else if raw_perimeter_spec(m) is None {
                None
            } else {
                let ratio = div_spec(d.pixel_distance, d.real_distance)->Some_0;
                let raw = raw_perimeter_spec(m)->Some_0;
                if div_spec(raw, ratio) is None {
                    None
                } else {
                    Some(
                        Some(
                            UnitValue {
                                value: div_spec(raw, ratio)->Some_0,
                                unit: d.unit,
                                magnitude: UnitMagnitude::Length,
                            },
                        ),
                    )
                }
            }
        },
    }
}

/// The cell after a best-effort recompute of its derived caches: a
/// poisoned slot or a failed derivation keeps the previous cached value.
pub open spec fn recompute_model(c: MeasCellV) -> MeasCellV {
    if c.scale_poisoned {
        c
    } else {
        let c1 = if !c.area_poisoned && calc_area_spec(c.m, c.scale) is Some {
            MeasCellV { area: calc_area_spec(c.m, c.scale)->Some_0, ..c }
        } else {
            c
        };
        if !c1.length_poisoned && calc_length_spec(c1.m, c1.scale) is Some {
            MeasCellV { length: calc_length_spec(c1.m, c1.scale)->Some_0, ..c1 }
        } else {
            c1
        }
    }
}

/// Whether the recompute succeeded in full.
pub open spec fn recompute_ok(c: MeasCellV) -> bool {
    &&& !c.scale_poisoned
    &&& !c.area_poisoned
    &&& !c.length_poisoned
    &&& calc_area_spec(c.m, c.scale) is Some
    &&& calc_length_spec(c.m, c.scale) is Some
}

/// The cell after `set_scale`: the scale slot is written (if healthy) and
/// the derived caches recomputed best-effort.
pub open spec fn set_scale_model(c: MeasCellV, s: Scale) -> MeasCellV {
    if c.scale_poisoned {
        c
    } else {
        recompute_model(MeasCellV { scale: Some(s), ..c })
    }
}

/// The cell after `set_measurement`: the geometry is swapped in place,
/// the point count refreshed, and the caches recomputed best-effort.
pub open spec fn set_measurement_model(c: MeasCellV, m: MeasurementV) -> MeasCellV {
    recompute_model(MeasCellV { m, points: m_point_count(m) as u64, ..c })
}

/// The cell after scale resolution against the page's scales: the
/// resolved scale (if any) is assigned and the caches recomputed.
pub open spec fn calculate_scale_model(c: MeasCellV, scales: Seq<Scale>) -> MeasCellV {
    match resolve_spec(c.m, scales) {
        None => c,
        Some(s) => set_scale_model(c, s),
    }
}

/// Resolution and recompute touch only the derived caches: the held
/// measurement and point count are preserved.
pub proof fn lemma_calculate_scale_keeps_m(c: MeasCellV, scales: Seq<Scale>)
    ensures
        calculate_scale_model(c, scales).m == c.m,
        calculate_scale_model(c, scales).points == c.points,
{
}

impl MeasurementCell {
    pub open spec fn wf(self) -> bool {
        cell_wf(self@)
    }

    /// A fresh cell around a measurement: no scale assigned, caches
    /// absent, point count derived from the geometry.
    pub fn new(measurement: Measurement) -> (r: MeasurementCell)
        ensures
            r@ == (MeasCellV {
                m: measurement@,
                scale: None,
                scale_poisoned: false,
                area: None,
                area_poisoned: false,
                length: None,
                length_poisoned: false,
                points: m_point_count(measurement@) as u64,
            }),
    {
        let points = measurement.point_count();
        MeasurementCell {
            measurement,
            scale: Slot::new(None),
            area: Slot::new(None),
            length: Slot::new(None),
            points,
        }
    }

    /// A cell with the same content and freshly owned storage.
    pub fn duplicate(&self) -> (r: MeasurementCell)
        ensures
            r@ == self@,
    {
        let m = self.measurement.duplicate();
        let sc: Option<Scale> = match &self.scale.value {
            Some(s) => Some(s.duplicate()),
            None => None,
        };
        MeasurementCell {
            measurement: m,
            scale: Slot { value: sc, poisoned: self.scale.poisoned },
            area: Slot { value: self.area.value, poisoned: self.area.poisoned },
            length: Slot { value: self.length.value, poisoned: self.length.poisoned },
            points: self.points,
        }
    }

    /// The number of drawn points of the held measurement.
    pub fn get_points(&self) -> (r: u64)
        ensures
            r == self@.points,
    {
        self.points
    }

    /// Each measurement counts once.
    pub fn get_count(&self) -> (r: u64)
        ensures
            r == 1,
    {
        1
    }

    /// The held measurement.
    pub fn get_measurement(&self) -> (r: Measurement)
        ensures
            r@ == self@.m,
    {
        self.measurement.duplicate()
    }

    /// The assigned scale, or `None` if none is assigned or the slot is
    /// poisoned.
    pub fn get_scale(&self) -> (r: Option<Scale>)
        ensures
            !self@.scale_poisoned ==> r == self@.scale,
            self@.scale_poisoned ==> r is None,
    {
        let s = self.scale.lock_read("scale");
        match s {
            Ok(s) => match s {
                Some(s) => Some(s.duplicate()),
                None => None,
            },
            Err(_) => None,
        }
    }

    /// The cached area; fails if the slot is poisoned. Absent exactly
    /// when no scale is assigned or the cache was never filled.
    pub fn get_area_value(&self) -> (r: TakeoffResult<Option<UnitValue>>)
        ensures
            r is Ok <==> !self@.area_poisoned,
            r is Ok ==> r->Ok_0 == self@.area,
            r is Err ==> r->Err_0 matches TakeoffError::PoisonError { .. },
    {
        let a = self.area.lock_read("area");
        match a {
            Ok(a) => Ok(*a),
            Err(e) => Err(e),
        }
    }

    /// The cached area, or `None` when absent or the slot is poisoned.
    pub fn get_area(&self) -> (r: Option<UnitValue>)
        ensures
            !self@.area_poisoned ==> r == self@.area,
            self@.area_poisoned ==> r is None,
    {
        match self.get_area_value() {
            Ok(a) => a,
            Err(_) => None,
        }
    }

    /// The cached length; fails if the slot is poisoned.
    pub fn get_length_value(&self) -> (r: TakeoffResult<Option<UnitValue>>)
        ensures
            r is Ok <==> !self@.length_poisoned,
            r is Ok ==> r->Ok_0 == self@.length,
            r is Err ==> r->Err_0 matches TakeoffError::PoisonError { .. },
    {
        let l = self.length.lock_read("length");
        match l {
            Ok(l) => Ok(*l),
            Err(e) => Err(e),
        }
    }

    /// The cached length, or `None` when absent or the slot is poisoned.
    pub fn get_length(&self) -> (r: Option<UnitValue>)
        ensures
            !self@.length_poisoned ==> r == self@.length,
            self@.length_poisoned ==> r is None,
    {
        match self.get_length_value() {
            Ok(l) => l,
            Err(_) => None,
        }
    }

    /// The id of the held measurement.
    pub fn id(&self) -> (r: &str)
        ensures
            r@ == self@.m.id,
    {
        self.measurement.id()
    }

    /// The page id of the held measurement.
    pub fn page_id(&self) -> (r: &str)
        ensures
            r@ == self@.m.page_id,
    {
        self.measurement.page_id()
    }

    /// The group id of the held measurement.
    pub fn get_group_id(&self) -> (r: &str)
        ensures
            r@ == self@.m.group_id,
    {
        self.measurement.group_id()
    }

    /// The raw, pixel-space area of the held measurement.
    pub fn raw_area(&self) -> (r: TakeoffResult<crate::rat::Rat>)
        requires
            self.wf(),
        ensures
            !self@.m_valid() ==> r is Err,
            self@.m_valid() ==> (r is Ok <==> raw_area_spec(self@.m) is Some),
            self@.m_valid() && r is Ok ==> Some(r->Ok_0) == raw_area_spec(self@.m),
    {
        self.measurement.pixel_area()
    }

    /// The raw, pixel-space perimeter of the held measurement.
    pub fn raw_perimeter(&self) -> (r: TakeoffResult<crate::rat::Rat>)
        requires
            self.wf(),
        ensures
            !self@.m_valid() ==> r is Err,
            self@.m_valid() ==> (r is Ok <==> raw_perimeter_spec(self@.m) is Some),
            self@.m_valid() && r is Ok ==> Some(r->Ok_0) == raw_perimeter_spec(self@.m),
    {
        self.measurement.pixel_perimeter()
    }

    /// A fresh derivation of the scaled area, expressed in the requested
    /// unit. Absent when no scale is assigned; an error surfaces a
    /// poisoned scale slot, invalid inputs, or an unrepresentable value.
    pub fn convert_area(&self, unit: crate::unit::Unit) -> (r: TakeoffResult<
        Option<crate::rat::Rat>,
    >)
        requires
            self.wf(),
        ensures
            self@.scale_poisoned ==> r is Err,
            !self@.scale_poisoned && calc_area_spec(self@.m, self@.scale) is None ==> r
                is Err,
            (!self@.scale_poisoned && calc_area_spec(self@.m, self@.scale) is Some)
                ==> ({
                match calc_area_spec(self@.m, self@.scale)->Some_0 {
                    None => r is Ok && r->Ok_0 is None,
                    Some(uv) => r is Ok && r->Ok_0 == mul_spec(
                        uv.value,
                        crate::unit::area_factor_rat(uv.unit, unit),
                    ),
                }
            }),
    {
        let sc = match self.scale.lock_read("scale") {
            Ok(sc) => sc,
            Err(e) => {
                return Err(e);
            },
        };
        let area = match calculate_area(&self.measurement, sc) {
            Ok(area) => area,
            Err(e) => {
                return Err(e);
            },
        };
        match area {
            None => Ok(None),
            Some(uv) => Ok(uv.unit.convert_area(&uv.value, &unit)),
        }
    }

    /// A fresh derivation of the scaled length, expressed in the
    /// requested unit.
    pub fn convert_length(&self, unit: crate::unit::Unit) -> (r: TakeoffResult<
        Option<crate::rat::Rat>,
    >)
        requires
            self.wf(),
        ensures
            self@.scale_poisoned ==> r is Err,
            !self@.scale_poisoned && calc_length_spec(self@.m, self@.scale) is None ==> r
                is Err,
            (!self@.scale_poisoned && calc_length_spec(self@.m, self@.scale) is Some)
                ==> ({
                match calc_length_spec(self@.m, self@.scale)->Some_0 {
                    None => r is Ok && r->Ok_0 is None,
                    Some(uv) => r is Ok && r->Ok_0 == mul_spec(
                        uv.value,
                        crate::unit::factor_rat(uv.unit, unit),
                    ),
                }
            }),
    {
        let sc = match self.scale.lock_read("scale") {
            Ok(sc) => sc,
            Err(e) => {
                return Err(e);
            },
        };
        let length = match calculate_length(&self.measurement, sc) {
            Ok(length) => length,
            Err(e) => {
                return Err(e);
            },
        };
        match length {
            None => Ok(None),
            Some(uv) => Ok(uv.unit.convert(&uv.value, &unit)),
        }
    }

    /// Recompute the cached area and length from the assigned scale and
    /// current geometry, best-effort: a poisoned slot or a failed
    /// derivation keeps the previous cached value. The result reports the
    /// first failure, if any.
    pub fn recompute_measurements(&mut self) -> (r: TakeoffResult<()>)
        requires
            old(self).wf(),
        ensures
            final(self)@ == recompute_model(old(self)@),
            final(self).wf(),
            r is Ok <==> recompute_ok(old(self)@),
    {
        let sc = match self.scale.lock_read("scale") {
            Ok(sc) => sc,
            Err(e) => {
                return Err(e);
            },
        };
        let area = calculate_area(&self.measurement, sc);
        let length = calculate_length(&self.measurement, sc);
        let mut first_err: Option<TakeoffError> = None;
        match area {
            Ok(a) => {
                match self.area.lock_write(a, "area") {
                    Ok(_) => {
                    },
                    Err(e) => {
                        first_err = Some(e);
                    },
                }
            },
            Err(e) => {
                first_err = Some(e);
            },
        }
        match length {
            Ok(l) => {
                match self.length.lock_write(l, "length") {
                    Ok(_) => {
                    },
                    Err(e) => {
                        if first_err.is_none() {
                            first_err = Some(e);
                        }
                    },
                }
            },
            Err(e) => {
                if first_err.is_none() {
                    first_err = Some(e);
                }
            },
        }
        match first_err {
            None => Ok(()),
            Some(e) => Err(e),
        }
    }

    /// Assign a scale and eagerly recompute the caches. A poisoned scale
    /// slot is surfaced as an error and leaves the cell unchanged; a
    /// failure inside the recompute cascade is swallowed, the affected
    /// cache keeping its previous value.
    pub fn set_scale(&mut self, scale: Scale) -> (r: TakeoffResult<()>)
        requires
            old(self).wf(),
            scale.wf(),
        ensures
            final(self)@ == set_scale_model(old(self)@, scale),
            final(self).wf(),
            r is Ok <==> !old(self)@.scale_poisoned,
            r is Err ==> r->Err_0 matches TakeoffError::PoisonError { .. },
    {
        match self.scale.lock_write(Some(scale), "scale") {
            Ok(_) => {
            },
            Err(e) => {
                return Err(e);
            },
        }
        let _best_effort = self.recompute_measurements();
        Ok(())
    }

    /// Swap the underlying geometry in place, refresh the point count and
    /// eagerly recompute the caches. Returns the previous measurement;
    /// recompute failures are swallowed, the affected cache keeping its
    /// previous value.
    pub fn set_measurement(&mut self, measurement: Measurement) -> (r: Measurement)
        requires
            old(self).wf(),
            measurement.wf(),
        ensures
            final(self)@ == set_measurement_model(old(self)@, measurement@),
            final(self).wf(),
            r@ == old(self)@.m,
    {
        let points = measurement.point_count();
        let mut incoming = measurement;
        core::mem::swap(&mut self.measurement, &mut incoming);
        self.points = points;
        let _best_effort = self.recompute_measurements();
        incoming
    }

    /// Resolve the applicable scale among the page's scales (in their
    /// registration order), assign it and recompute. Returns the resolved
    /// scale, or `None` when none applies or the measurement slot is
    /// poisoned; failures along the cascade are swallowed.
    pub fn calculate_scale(&mut self, page_scales: &Vec<Scale>) -> (r: Option<Scale>)
        requires
            old(self).wf(),
            forall|i: int|
                0 <= i < page_scales@.len() ==> (#[trigger] page_scales@[i]).wf(),
        ensures
            final(self)@ == calculate_scale_model(old(self)@, page_scales@),
            final(self).wf(),
            r == resolve_spec(old(self)@.m, page_scales@),
    {
        let resolved = resolve(&self.measurement, page_scales);
        match resolved {
            None => None,
            Some(s) => {
                proof {
                    lemma_resolved_scale_wf(old(self)@.m, page_scales@);
                }
                let out = s.duplicate();
                let _best_effort = self.set_scale(s);
                Some(out)
            },
        }
    }
}

/// A resolved scale is one of the page's scales, hence well-formed.
proof fn lemma_resolved_scale_wf(m: MeasurementV, scales: Seq<Scale>)
    requires
        forall|i: int| 0 <= i < scales.len() ==> (#[trigger] scales[i]).wf(),
    ensures
        resolve_spec(m, scales) is Some ==> resolve_spec(m, scales)->Some_0.wf(),
{
    lemma_resolve_from_wf(m, scales, 0, None);
}

proof fn lemma_resolve_from_wf(
    m: MeasurementV,
    scales: Seq<Scale>,
    i: int,
    last_default: Option<Scale>,
)
    requires
        forall|j: int| 0 <= j < scales.len() ==> (#[trigger] scales[j]).wf(),
        last_default is Some ==> last_default->Some_0.wf(),
    ensures
        crate::scale::resolve_from(m, scales, i, last_default) is Some
            ==> crate::scale::resolve_from(m, scales, i, last_default)->Some_0.wf(),
    decreases scales.len() - i,
{
    if i < 0 || i >= scales.len() {
    } else {
        let s = scales[i];
        if crate::scale::area_scale_matches(s, m) {
        } else if s is Default {
            lemma_resolve_from_wf(m, scales, i + 1, Some(s));
        } else {
            lemma_resolve_from_wf(m, scales, i + 1, last_default);
        }
    }
}

/// The scaled area of a measurement under an optional assigned scale:
/// raw pixel area divided by the squared ratio, in the scale's unit.
/// An unassigned scale yields `Ok(None)`, never a number.
pub fn calculate_area(m: &Measurement, sc: &Option<Scale>) -> (r: TakeoffResult<
    Option<UnitValue>,
>)
    requires
        m.wf(),
        sc is Some ==> sc->Some_0.wf(),
    ensures
        r is Ok <==> calc_area_spec(m@, *sc) is Some,
        r is Ok ==> r->Ok_0 == calc_area_spec(m@, *sc)->Some_0,
        r is Ok && r->Ok_0 is Some ==> r->Ok_0->Some_0.wf(),
{
    let s = match sc {
        None => {
            return Ok(None);
        },
        Some(s) => s,
    };
    let ratio = match s.ratio() {
        Ok(ratio) => ratio,
        Err(e) => {
            return Err(e);
        },
    };
    let raw = match m.pixel_area() {
        Ok(raw) => raw,
        Err(e) => {
            return Err(e);
        },
    };
    let r2 = match ratio.mul(&ratio) {
        Some(r2) => r2,
        None => {
            return Err(crate::error::TakeoffError::UnknownError {
                message: "value outside the exact representation bounds".to_owned(),
            });
        },
    };
    proof {
        lemma_mul_pos(ratio@.num, ratio@.num);
        lemma_mul_pos(ratio@.den, ratio@.den);
        assert(r2@.num > 0) by (nonlinear_arith)
            requires
                r2@.num * (ratio@.den * ratio@.den) == (ratio@.num * ratio@.num)
                    * r2@.den,
                ratio@.num * ratio@.num > 0,
                ratio@.den * ratio@.den > 0,
                r2@.den > 0,
        ;
    }
    let area = match raw.div(&r2) {
        Some(a) => a,
        None => {
            return Err(crate::error::TakeoffError::UnknownError {
                message: "value outside the exact representation bounds".to_owned(),
            });
        },
    };
    Ok(Some(UnitValue { value: area, unit: s.get_unit(), magnitude: UnitMagnitude::Area }))
}

/// The scaled length of a measurement under an optional assigned scale:
/// raw pixel perimeter divided by the ratio, in the scale's unit.
pub fn calculate_length(m: &Measurement, sc: &Option<Scale>) -> (r: TakeoffResult<
    Option<UnitValue>,
>)
    requires
        m.wf(),
        sc is Some ==> sc->Some_0.wf(),
    ensures
        r is Ok <==> calc_length_spec(m@, *sc) is Some,
        r is Ok ==> r->Ok_0 == calc_length_spec(m@, *sc)->Some_0,
        r is Ok && r->Ok_0 is Some ==> r->Ok_0->Some_0.wf(),
{
    let s = match sc {
        None => {
            return Ok(None);
        },
        Some(s) => s,
    };
    let ratio = match s.ratio() {
        Ok(ratio) => ratio,
        Err(e) => {
            return Err(e);
        },
    };
    let raw = match m.pixel_perimeter() {
        Ok(raw) => raw,
        Err(e) => {
            return Err(e);
        },
    };
    let length = match raw.div(&ratio) {
        Some(l) => l,
        None => {
            return Err(crate::error::TakeoffError::UnknownError {
                message: "value outside the exact representation bounds".to_owned(),
            });
        },
    };
    Ok(Some(UnitValue {
        value: length,
        unit: s.get_unit(),
        magnitude: UnitMagnitude::Length,
    }))
}

} // verus!
