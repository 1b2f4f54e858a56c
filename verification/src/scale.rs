//! Scales and scale resolution.
//!
//! A scale definition maps a pixel distance to a real-world distance in a
//! unit; its ratio (pixels per real-world unit) must come from two strictly
//! positive distances. A page can carry a page-wide `Default` scale and
//! region-limited `Area` scales. Resolution walks the page's scales in
//! their given order: the first `Area` scale whose box contains the whole
//! (valid) geometry wins immediately; otherwise the last `Default` seen
//! applies; otherwise no scale applies.

use vstd::prelude::*;
use crate::coords::Point;
use crate::error::{TakeoffError, TakeoffResult};
use crate::measurement::{Measurement, MeasurementV, m_is_valid};
use crate::rat::{Rat, GRat, g_eqv, g_le, g_div, div_spec, lemma_mul_pos};
use crate::unit::Unit;

verus! {

/// A pixel-to-real-world scale definition.
#[derive(Debug, Clone, Copy, PartialEq)]
pub struct ScaleDefinition {
    pub pixel_distance: Rat,
    pub real_distance: Rat,
    pub unit: Unit,
}

impl ScaleDefinition {
    pub open spec fn wf(self) -> bool {
        self.pixel_distance.wf() && self.real_distance.wf()
    }

    /// Pixels per one real-world unit. Exactly the inputs with a
    /// non-positive distance are rejected as an invalid scale.
    pub fn ratio(&self) -> (r: TakeoffResult<Rat>)
        requires
            self.wf(),
        ensures
            (self.pixel_distance@.num <= 0 || self.real_distance@.num <= 0) <==> (r
                is Err && r->Err_0 matches TakeoffError::InvalidScale { .. }),
            r is Ok <==> (self.pixel_distance@.num > 0 && self.real_distance@.num > 0
                && div_spec(self.pixel_distance, self.real_distance) is Some),
            r is Ok ==> Some(r->Ok_0) == div_spec(self.pixel_distance,
                self.real_distance),
            r is Ok ==> r->Ok_0.wf() && r->Ok_0@.num > 0 && g_eqv(
                r->Ok_0@,
                g_div(self.pixel_distance@, self.real_distance@),
            ),
            r is Err ==> (r->Err_0 matches TakeoffError::InvalidScale { .. } || r->Err_0
                matches TakeoffError::UnknownError { .. }),
    {
        let pd_pos = self.pixel_distance.is_positive();
        let rd_pos = self.real_distance.is_positive();
        if !pd_pos || !rd_pos {
            return Err(TakeoffError::invalid_scale(
                "pixel and real distances must be strictly positive",
            ));
        }
        match self.pixel_distance.div(&self.real_distance) {
            Some(q) => {
                proof {
                    let gq = g_div(self.pixel_distance@, self.real_distance@);
                    lemma_mul_pos(self.pixel_distance@.num, self.real_distance@.den);
                    lemma_mul_pos(self.pixel_distance@.den, self.real_distance@.num);
                    assert(q@.num > 0) by (nonlinear_arith)
                        requires
                            q@.num * gq.den == gq.num * q@.den,
                            gq.num > 0,
                            gq.den > 0,
                            q@.den > 0,
                    ;
                }
                Ok(q)
            },
            None => Err(TakeoffError::UnknownError {
                message: "scale ratio outside the exact representation bounds".to_owned(),
            }),
        }
    }
}

/// An axis-aligned region given by two corner points.
#[derive(Debug, Clone, Copy, PartialEq)]
pub struct BoundingBox {
    pub p1: Point,
    pub p2: Point,
}

impl BoundingBox {
    pub open spec fn wf(self) -> bool {
        self.p1.wf() && self.p2.wf()
    }
}

/// A scale registered on a page: page-wide (`Default`) or limited to an
/// axis-aligned region (`Area`).
#[derive(Debug, Clone, PartialEq)]
pub enum Scale {
    Area { id: String, page_id: String, scale: ScaleDefinition, bounding_box: BoundingBox },
    Default { id: String, page_id: String, scale: ScaleDefinition },
}

/// Whether a value lies within [lo, hi] taking the two corner values in
/// either order.
pub open spec fn g_between(v: GRat, a: GRat, b: GRat) -> bool {
    (g_le(a, v) && g_le(v, b)) || (g_le(b, v) && g_le(v, a))
}

/// Whether a point lies within the closed axis-aligned box.
pub open spec fn point_in_box(bb: BoundingBox, p: Point) -> bool {
    g_between(p.x@, bb.p1.x@, bb.p2.x@) && g_between(p.y@, bb.p1.y@, bb.p2.y@)
}

/// Whether every point of the sequence lies within the closed box.
pub open spec fn all_points_in_box(bb: BoundingBox, pts: Seq<Point>) -> bool {
    forall|i: int| 0 <= i < pts.len() ==> point_in_box(bb, #[trigger] pts[i])
}

/// Whether an `Area` scale's box contains the whole geometry of a valid
/// measurement. `Default` scales never match by containment, and invalid
/// geometry never qualifies for an `Area` override.
pub open spec fn area_scale_matches(s: Scale, m: MeasurementV) -> bool {
    match s {
        Scale::Area { bounding_box, .. } => m_is_valid(m) && all_points_in_box(
            bounding_box,
            m.pts,
        ),
        Scale::Default { .. } => false,
    }
}

impl Scale {
    pub open spec fn wf(self) -> bool {
        match self {
            Scale::Area { scale, bounding_box, .. } => scale.wf() && bounding_box.wf(),
            Scale::Default { scale, .. } => scale.wf(),
        }
    }

    pub open spec fn spec_id(self) -> Seq<char> {
        match self {
            Scale::Area { id, .. } => id@,
            Scale::Default { id, .. } => id@,
        }
    }

    pub open spec fn spec_page_id(self) -> Seq<char> {
        match self {
            Scale::Area { page_id, .. } => page_id@,
            Scale::Default { page_id, .. } => page_id@,
        }
    }

    pub open spec fn spec_definition(self) -> ScaleDefinition {
        match self {
            Scale::Area { scale, .. } => scale,
            Scale::Default { scale, .. } => scale,
        }
    }

    /// Get the id of the scale.
    pub fn id(&self) -> (r: String)
        ensures
            r@ == self.spec_id(),
    {
        match self {
            Scale::Area { id, .. } => id.clone(),
            Scale::Default { id, .. } => id.clone(),
        }
    }

    /// Get the page id of the scale.
    pub fn page_id(&self) -> (r: String)
        ensures
            r@ == self.spec_page_id(),
    {
        match self {
            Scale::Area { page_id, .. } => page_id.clone(),
            Scale::Default { page_id, .. } => page_id.clone(),
        }
    }

    /// The scale definition carried by this scale.
    pub fn definition(&self) -> (r: ScaleDefinition)
        ensures
            r == self.spec_definition(),
    {
        match self {
            Scale::Area { scale, .. } => *scale,
            Scale::Default { scale, .. } => *scale,
        }
    }

    /// The unit of this scale's definition.
    pub fn get_unit(&self) -> (r: Unit)
        ensures
            r == self.spec_definition().unit,
    {
        self.definition().unit
    }

    /// Pixels per one real-world unit of this scale's definition.
    pub fn ratio(&self) -> (r: TakeoffResult<Rat>)
        requires
            self.wf(),
        ensures
            ({
                let d = self.spec_definition();
                &&& ((d.pixel_distance@.num <= 0 || d.real_distance@.num <= 0) <==> (r
                    is Err && r->Err_0 matches TakeoffError::InvalidScale { .. }))
                &&& (r is Ok <==> (d.pixel_distance@.num > 0 && d.real_distance@.num
                    > 0 && div_spec(d.pixel_distance, d.real_distance) is Some))
                &&& (r is Ok ==> Some(r->Ok_0) == div_spec(d.pixel_distance,
                    d.real_distance))
                &&& (r is Ok ==> r->Ok_0.wf() && r->Ok_0@.num > 0 && g_eqv(
                    r->Ok_0@,
                    g_div(d.pixel_distance@, d.real_distance@),
                ))
                &&& (r is Err ==> (r->Err_0 matches TakeoffError::InvalidScale { .. }
                    || r->Err_0 matches TakeoffError::UnknownError { .. }))
            }),
    {
        let d = self.definition();
        d.ratio()
    }

    /// Whether this scale's id equals the given id.
    pub fn id_matches(&self, id: &String) -> (r: bool)
        ensures
            r == (self.spec_id() == id@),
    {
        match self {
            Scale::Area { id: own, .. } => *own == *id,
            Scale::Default { id: own, .. } => *own == *id,
        }
    }

    /// Whether this scale's page id equals the given id.
    pub fn page_id_matches(&self, page_id: &String) -> (r: bool)
        ensures
            r == (self.spec_page_id() == page_id@),
    {
        match self {
            Scale::Area { page_id: own, .. } => *own == *page_id,
            Scale::Default { page_id: own, .. } => *own == *page_id,
        }
    }

    /// An equal scale with freshly owned storage.
    pub fn duplicate(&self) -> (r: Scale)
        ensures
            r == *self,
    {
        match self {
            Scale::Area { id, page_id, scale, bounding_box } => Scale::Area {
                id: id.clone(),
                page_id: page_id.clone(),
                scale: *scale,
                bounding_box: *bounding_box,
            },
            Scale::Default { id, page_id, scale } => Scale::Default {
                id: id.clone(),
                page_id: page_id.clone(),
                scale: *scale,
            },
        }
    }

    /// Whether this is an `Area` scale whose box contains the whole
    /// geometry of the (valid) measurement.
    pub fn is_in_bounding_box(&self, m: &Measurement) -> (r: bool)
        requires
            self.wf(),
            m.wf(),
        ensures
            r == area_scale_matches(*self, m@),
    {
        match self {
            Scale::Default { .. } => false,
            Scale::Area { bounding_box, .. } => {
                let valid = m.validate();
                if valid.is_err() {
                    return false;
                }
                match m {
                    Measurement::Count { points, .. } => {
                        proof {
                            assert(m@.pts == seq![*points]);
                            assert(m@.pts[0] == *points);
                            assert(m@.pts[0].wf());
                        }
                        let r = point_in_box_exec(bounding_box, points);
                        proof {
                            if r {
                                assert forall|i: int| 0 <= i < m@.pts.len() implies
                                    point_in_box(*bounding_box, #[trigger] m@.pts[i]) by {
                                    assert(m@.pts[i] == *points);
                                }
                            }
                        }
                        r
                    },
                    Measurement::Polygon { points, .. } => {
                        all_in_box_exec(bounding_box, points)
                    },
                    Measurement::Polyline { points, .. } => {
                        all_in_box_exec(bounding_box, points)
                    },
                    Measurement::Rectangle { corner1, corner2, .. } => {
                        proof {
                            assert(m@.pts == seq![*corner1, *corner2]);
                            assert(m@.pts[0] == *corner1 && m@.pts[1] == *corner2);
                            assert(m@.pts[0].wf() && m@.pts[1].wf());
                        }
                        let r1 = point_in_box_exec(bounding_box, corner1);
                        let r2 = point_in_box_exec(bounding_box, corner2);
                        proof {
                            if r1 && r2 {
                                assert forall|i: int| 0 <= i < m@.pts.len() implies
                                    point_in_box(*bounding_box, #[trigger] m@.pts[i]) by {
                                    assert(m@.pts[i] == *corner1 || m@.pts[i]
                                        == *corner2);
                                }
                            }
                        }
                        r1 && r2
                    },
                }
            },
        }
    }
}

/// Whether a point lies within the closed box.
fn point_in_box_exec(bb: &BoundingBox, p: &Point) -> (r: bool)
    requires
        bb.wf(),
        p.wf(),
    ensures
        r == point_in_box(*bb, *p),
{
    let x_in = (bb.p1.x.le(&p.x) && p.x.le(&bb.p2.x)) || (bb.p2.x.le(&p.x) && p.x.le(
        &bb.p1.x,
    ));
    let y_in = (bb.p1.y.le(&p.y) && p.y.le(&bb.p2.y)) || (bb.p2.y.le(&p.y) && p.y.le(
        &bb.p1.y,
    ));
    x_in && y_in
}

/// Whether every point of the list lies within the closed box.
fn all_in_box_exec(bb: &BoundingBox, pts: &Vec<Point>) -> (r: bool)
    requires
        bb.wf(),
        forall|i: int| 0 <= i < pts@.len() ==> (#[trigger] pts@[i]).wf(),
    ensures
        r == all_points_in_box(*bb, pts@),
{
    let mut i: usize = 0;
    while i < pts.len()
        invariant
            0 <= i <= pts@.len(),
            bb.wf(),
            forall|j: int| 0 <= j < pts@.len() ==> (#[trigger] pts@[j]).wf(),
            forall|j: int| 0 <= j < i ==> point_in_box(*bb, #[trigger] pts@[j]),
        decreases pts@.len() - i,
    {
        if !point_in_box_exec(bb, &pts[i]) {
            return false;
        }
        i = i + 1;
    }
    true
}

/// The scale selected when resolution starts at index i with
/// `last_default` already recorded.
pub open spec fn resolve_from(
    m: MeasurementV,
    scales: Seq<Scale>,
    i: int,
    last_default: Option<Scale>,
) -> Option<Scale>
    decreases scales.len() - i,
{
    if i < 0 || i >= scales.len() {
        last_default
    } else {
        let s = scales[i];
        if area_scale_matches(s, m) {
            Some(s)
        } else if s is Default {
            resolve_from(m, scales, i + 1, Some(s))
        } else {
            resolve_from(m, scales, i + 1, last_default)
        }
    }
}

/// The scale that applies to a measurement given the page's scales in
/// their registration order: the first matching `Area` scale, else the
/// last `Default`, else none.
pub open spec fn resolve_spec(m: MeasurementV, scales: Seq<Scale>) -> Option<Scale> {
    resolve_from(m, scales, 0, None)
}

/// Select the scale that applies to `m` among `page_scales`, walking the
/// sequence in order.
pub fn resolve(m: &Measurement, page_scales: &Vec<Scale>) -> (r: Option<Scale>)
    requires
        m.wf(),
        forall|i: int| 0 <= i < page_scales@.len() ==> (#[trigger] page_scales@[i]).wf(),
    ensures
        r == resolve_spec(m@, page_scales@),
{
    let ghost scales = page_scales@;
    let mut last_default: Option<Scale> = None;
    let mut i: usize = 0;
    while i < page_scales.len()
        invariant
            0 <= i <= scales.len(),
            scales == page_scales@,
            m.wf(),
            forall|j: int| 0 <= j < scales.len() ==> (#[trigger] scales[j]).wf(),
            resolve_from(m@, scales, i as int, last_default) == resolve_spec(m@, scales),
            last_default is Some ==> last_default->Some_0 is Default,
        decreases scales.len() - i,
    {
        let s = &page_scales[i];
        if s.is_in_bounding_box(m) {
            return Some(s.duplicate());
        }
        match s {
            Scale::Default { .. } => {
                last_default = Some(s.duplicate());
            },
            Scale::Area { .. } => {
            },
        }
        i = i + 1;
    }
    last_default
}

} // verus!
