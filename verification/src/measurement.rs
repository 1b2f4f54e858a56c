//! Measurements: counts, polygons, polylines and rectangles.
//!
//! Each measurement carries its id, the page it was drawn on and the group
//! it belongs to, plus pixel-space geometry. Raw (pixel-space) area and
//! perimeter are derived here: the shoelace formula for polygon area, the
//! closed ring perimeter for polygons and rectangles (the wrap-around edge
//! included), and the open chain length for polylines (no closing edge —
//! that asymmetry is intentional). Validation is a precondition of every
//! derivation; malformed geometry is a typed error, never a crash and never
//! a silent zero.

use vstd::prelude::*;
use crate::coords::{
    Point, g_sqdist, floor_sqrt_scaled, dist_rat_spec, DIST_PREC,
};
use crate::error::{TakeoffError, TakeoffResult};
use crate::rat::{
    Rat, GRat, g_eqv, g_add, g_sub, g_mul, g_from_int, abs_int, add_spec, sub_spec,
    mul_spec, rat_parts, lemma_rat_parts_view, lemma_eqv_add, lemma_eqv_sub,
    lemma_eqv_mul, lemma_eqv_trans, lemma_mul_pos, lemma_rat_ext,
};

verus! {

/// The kind of a measurement.
#[derive(Debug, Clone, Copy, PartialEq, Eq, Structural)]
pub enum MeasurementKind {
    Count,
    Polygon,
    Polyline,
    Rectangle,
}

/// The mathematical content of a measurement: its kind, its three ids and
/// its point sequence (a count has one point, a rectangle its two corners).
#[verifier::ext_equal]
pub ghost struct MeasurementV {
    pub kind: MeasurementKind,
    pub id: Seq<char>,
    pub page_id: Seq<char>,
    pub group_id: Seq<char>,
    pub pts: Seq<Point>,
}

/// A measurement drawn on a page.
#[derive(Debug, Clone, PartialEq)]
pub enum Measurement {
    Count { id: String, page_id: String, group_id: String, points: Point },
    Polygon { id: String, page_id: String, group_id: String, points: Vec<Point> },
    Polyline { id: String, page_id: String, group_id: String, points: Vec<Point> },
    Rectangle {
        id: String,
        page_id: String,
        group_id: String,
        corner1: Point,
        corner2: Point,
    },
}

impl View for Measurement {
    type V = MeasurementV;

    open spec fn view(&self) -> MeasurementV {
        match *self {
            Measurement::Count { id, page_id, group_id, points } => MeasurementV {
                kind: MeasurementKind::Count,
                id: id@,
                page_id: page_id@,
                group_id: group_id@,
                pts: seq![points],
            },
            Measurement::Polygon { id, page_id, group_id, points } => MeasurementV {
                kind: MeasurementKind::Polygon,
                id: id@,
                page_id: page_id@,
                group_id: group_id@,
                pts: points@,
            },
            Measurement::Polyline { id, page_id, group_id, points } => MeasurementV {
                kind: MeasurementKind::Polyline,
                id: id@,
                page_id: page_id@,
                group_id: group_id@,
                pts: points@,
            },
            Measurement::Rectangle { id, page_id, group_id, corner1, corner2 } => {
                MeasurementV {
                    kind: MeasurementKind::Rectangle,
                    id: id@,
                    page_id: page_id@,
                    group_id: group_id@,
                    pts: seq![corner1, corner2],
                }
            },
        }
    }
}

/// All coordinates are valid rationals.
pub open spec fn m_wf(v: MeasurementV) -> bool {
    forall|i: int| 0 <= i < v.pts.len() ==> (#[trigger] v.pts[i]).wf()
}

/// Valid geometry: a polygon needs at least 3 points, a polyline at least
/// 2, a rectangle two corners that differ in value; a count is always
/// valid.
pub open spec fn m_is_valid(v: MeasurementV) -> bool {
    match v.kind {
        MeasurementKind::Count => true,
        MeasurementKind::Polygon => v.pts.len() >= 3,
        MeasurementKind::Polyline => v.pts.len() >= 2,
        MeasurementKind::Rectangle => !(g_eqv(v.pts[0].x@, v.pts[1].x@) && g_eqv(
            v.pts[0].y@,
            v.pts[1].y@,
        )),
    }
}

/// The number of drawn points: one for a count, four for a rectangle, the
/// point list's length otherwise.
pub open spec fn m_point_count(v: MeasurementV) -> int {
    match v.kind {
        MeasurementKind::Count => 1,
        MeasurementKind::Polygon => v.pts.len() as int,
        MeasurementKind::Polyline => v.pts.len() as int,
        MeasurementKind::Rectangle => 4,
    }
}

impl Measurement {
    /// All coordinates are valid rationals.
    pub open spec fn wf(self) -> bool {
        m_wf(self@)
    }

    /// Valid geometry, as `m_is_valid` of the view.
    pub open spec fn is_valid(self) -> bool {
        m_is_valid(self@)
    }

    /// Get the id of the measurement.
    pub fn id(&self) -> (r: &str)
        ensures
            r@ == self@.id,
    {
        match self {
            Measurement::Count { id, .. } => id.as_str(),
            Measurement::Polygon { id, .. } => id.as_str(),
            Measurement::Polyline { id, .. } => id.as_str(),
            Measurement::Rectangle { id, .. } => id.as_str(),
        }
    }

    /// Get the page id of the measurement.
    pub fn page_id(&self) -> (r: &str)
        ensures
            r@ == self@.page_id,
    {
        match self {
            Measurement::Count { page_id, .. } => page_id.as_str(),
            Measurement::Polygon { page_id, .. } => page_id.as_str(),
            Measurement::Polyline { page_id, .. } => page_id.as_str(),
            Measurement::Rectangle { page_id, .. } => page_id.as_str(),
        }
    }

    /// Get the group id of the measurement.
    pub fn group_id(&self) -> (r: &str)
        ensures
            r@ == self@.group_id,
    {
        match self {
            Measurement::Count { group_id, .. } => group_id.as_str(),
            Measurement::Polygon { group_id, .. } => group_id.as_str(),
            Measurement::Polyline { group_id, .. } => group_id.as_str(),
            Measurement::Rectangle { group_id, .. } => group_id.as_str(),
        }
    }

    /// Whether this measurement's id equals the given id.
    pub fn id_matches(&self, id: &String) -> (r: bool)
        ensures
            r == (self@.id == id@),
    {
        match self {
            Measurement::Count { id: own, .. } => *own == *id,
            Measurement::Polygon { id: own, .. } => *own == *id,
            Measurement::Polyline { id: own, .. } => *own == *id,
            Measurement::Rectangle { id: own, .. } => *own == *id,
        }
    }

    /// Whether this measurement's page id equals the given id.
    pub fn page_id_matches(&self, page_id: &String) -> (r: bool)
        ensures
            r == (self@.page_id == page_id@),
    {
        match self {
            Measurement::Count { page_id: own, .. } => *own == *page_id,
            Measurement::Polygon { page_id: own, .. } => *own == *page_id,
            Measurement::Polyline { page_id: own, .. } => *own == *page_id,
            Measurement::Rectangle { page_id: own, .. } => *own == *page_id,
        }
    }

    /// Whether this measurement's group id equals the given id.
    pub fn group_id_matches(&self, group_id: &String) -> (r: bool)
        ensures
            r == (self@.group_id == group_id@),
    {
        match self {
            Measurement::Count { group_id: own, .. } => *own == *group_id,
            Measurement::Polygon { group_id: own, .. } => *own == *group_id,
            Measurement::Polyline { group_id: own, .. } => *own == *group_id,
            Measurement::Rectangle { group_id: own, .. } => *own == *group_id,
        }
    }

    /// A measurement with the same content and freshly owned storage.
    pub fn duplicate(&self) -> (r: Measurement)
        ensures
            r@ == self@,
    {
        match self {
            Measurement::Count { id, page_id, group_id, points } => Measurement::Count {
                id: id.clone(),
                page_id: page_id.clone(),
                group_id: group_id.clone(),
                points: *points,
            },
            Measurement::Polygon { id, page_id, group_id, points } => {
                let out = Measurement::Polygon {
                    id: id.clone(),
                    page_id: page_id.clone(),
                    group_id: group_id.clone(),
                    points: clone_points(points),
                };
                proof {
                    assert(out@ =~= self@);
                }
                out
            },
            Measurement::Polyline { id, page_id, group_id, points } => {
                let out = Measurement::Polyline {
                    id: id.clone(),
                    page_id: page_id.clone(),
                    group_id: group_id.clone(),
                    points: clone_points(points),
                };
                proof {
                    assert(out@ =~= self@);
                }
                out
            },
            Measurement::Rectangle { id, page_id, group_id, corner1, corner2 } => {
                Measurement::Rectangle {
                    id: id.clone(),
                    page_id: page_id.clone(),
                    group_id: group_id.clone(),
                    corner1: *corner1,
                    corner2: *corner2,
                }
            },
        }
    }

    /// Validate the measurement's geometry.
    pub fn validate(&self) -> (r: TakeoffResult<()>)
        requires
            self.wf(),
        ensures
            r is Ok <==> self.is_valid(),
            r is Err ==> r->Err_0 matches TakeoffError::EmptyGeometry { .. },
    {
        match self {
            Measurement::Polygon { points, .. } => {
                if points.len() < 3 {
                    let mut m = "polygon must have at least 3 points, got ".to_owned();
                    let digits = crate::error::usize_to_string(points.len());
                    m.append(digits.as_str());
                    Err(TakeoffError::EmptyGeometry { message: m })
                } else {
                    Ok(())
                }
            },
            Measurement::Polyline { points, .. } => {
                if points.len() < 2 {
                    let mut m = "polyline must have at least 2 points, got ".to_owned();
                    let digits = crate::error::usize_to_string(points.len());
                    m.append(digits.as_str());
                    Err(TakeoffError::EmptyGeometry { message: m })
                } else {
                    Ok(())
                }
            },
            Measurement::Rectangle { corner1, corner2, .. } => {
                proof {
                    assert(self@.pts[0] == *corner1 && self@.pts[1] == *corner2);
                    assert(self@.pts[0].wf() && self@.pts[1].wf());
                }
                let same_x = corner1.x.eq_val(&corner2.x);
                let same_y = corner1.y.eq_val(&corner2.y);
                if same_x && same_y {
                    Err(TakeoffError::empty_geometry(
                        "rectangle corners must be distinct points",
                    ))
                } else {
                    Ok(())
                }
            },
            Measurement::Count { .. } => Ok(()),
        }
    }

    /// The number of drawn points.
    pub fn point_count(&self) -> (r: u64)
        ensures
            r as int == m_point_count(self@),
    {
        match self {
            Measurement::Count { .. } => 1,
            Measurement::Polygon { points, .. } => points.len() as u64,
            Measurement::Polyline { points, .. } => points.len() as u64,
            Measurement::Rectangle { .. } => 4,
        }
    }

    /// The representative single point: the drawn point of a count, the
    /// first point or corner otherwise; an error for an empty point list.
    pub fn to_point(&self) -> (r: TakeoffResult<Point>)
        ensures
            r is Ok <==> self@.pts.len() > 0,
            r is Ok ==> r->Ok_0 == self@.pts[0],
            r is Err ==> r->Err_0 matches TakeoffError::EmptyGeometry { .. },
    {
        match self {
            Measurement::Count { points, .. } => Ok(*points),
            Measurement::Polygon { points, .. } => {
                if points.len() == 0 {
                    Err(TakeoffError::empty_geometry("polygon has no points"))
                } else {
                    Ok(points[0])
                }
            },
            Measurement::Polyline { points, .. } => {
                if points.len() == 0 {
                    Err(TakeoffError::empty_geometry("polyline has no points"))
                } else {
                    Ok(points[0])
                }
            },
            Measurement::Rectangle { corner1, .. } => Ok(*corner1),
        }
    }

    /// The raw, pixel-space area: zero for counts and polylines, the
    /// shoelace formula for polygons, |dx * dy| for rectangles. Errors on
    /// invalid geometry, or when a value leaves the representation bounds.
    pub fn pixel_area(&self) -> (r: TakeoffResult<Rat>)
        requires
            self.wf(),
        ensures
            !self.is_valid() ==> r is Err && r->Err_0 matches TakeoffError::EmptyGeometry {
                ..
            },
            self.is_valid() ==> (r is Ok <==> raw_area_spec(self@) is Some),
            self.is_valid() && r is Ok ==> Some(r->Ok_0) == raw_area_spec(self@),
            r is Ok ==> r->Ok_0.wf() && g_eqv(r->Ok_0@, g_raw_area(self@)),
            self.is_valid() && r is Err ==> r->Err_0 matches TakeoffError::UnknownError {
                ..
            },
    {
        let valid = self.validate();
        if let Err(e) = valid {
            return Err(e);
        }
        match self {
            Measurement::Count { .. } => Ok(Rat::zero()),
            Measurement::Polyline { .. } => Ok(Rat::zero()),
            Measurement::Polygon { points, .. } => {
                match shoelace_area(points) {
                    Some(a) => Ok(a),
                    None => Err(overflow_error()),
                }
            },
            Measurement::Rectangle { corner1, corner2, .. } => {
                match rect_area(corner1, corner2) {
                    Some(a) => Ok(a),
                    None => Err(overflow_error()),
                }
            },
        }
    }

    /// The raw, pixel-space perimeter: zero for counts, the closed ring
    /// for polygons and rectangles (wrap-around edge included), the open
    /// chain for polylines (no closing edge). Errors on invalid geometry,
    /// or when a value leaves the representation bounds.
    pub fn pixel_perimeter(&self) -> (r: TakeoffResult<Rat>)
        requires
            self.wf(),
        ensures
            !self.is_valid() ==> r is Err && r->Err_0 matches TakeoffError::EmptyGeometry {
                ..
            },
            self.is_valid() ==> (r is Ok <==> raw_perimeter_spec(self@) is Some),
            self.is_valid() && r is Ok ==> Some(r->Ok_0) == raw_perimeter_spec(self@),
            r is Ok ==> r->Ok_0.wf() && g_eqv(r->Ok_0@, g_raw_perimeter(self@)),
            self.is_valid() && r is Err ==> r->Err_0 matches TakeoffError::UnknownError {
                ..
            },
    {
        let valid = self.validate();
        if let Err(e) = valid {
            return Err(e);
        }
        match self {
            Measurement::Count { .. } => Ok(Rat::zero()),
            Measurement::Polygon { points, .. } => {
                match closed_perimeter(points) {
                    Some(p) => Ok(p),
                    None => Err(overflow_error()),
                }
            },
            Measurement::Rectangle { corner1, corner2, .. } => {
                let ring = rect_ring(corner1, corner2);
                let res = closed_perimeter(&ring);
                proof {
                    assert(ring@ == rect_ring_spec(self@.pts[0], self@.pts[1]));
                }
                match res {
                    Some(p) => Ok(p),
                    None => Err(overflow_error()),
                }
            },
            Measurement::Polyline { points, .. } => {
                match open_perimeter(points) {
                    Some(p) => Ok(p),
                    None => Err(overflow_error()),
                }
            },
        }
    }
}

/// The error reported when an exact value leaves the representation bounds.
fn overflow_error() -> (r: TakeoffError)
    ensures
        r matches TakeoffError::UnknownError { .. },
{
    TakeoffError::UnknownError {
        message: "value outside the exact representation bounds".to_owned(),
    }
}

/// Copy a point list.
fn clone_points(points: &Vec<Point>) -> (r: Vec<Point>)
    ensures
        r@ == points@,
{
    let mut out: Vec<Point> = Vec::new();
    let mut i: usize = 0;
    while i < points.len()
        invariant
            0 <= i <= points@.len(),
            out@ == points@.subrange(0, i as int),
        decreases points@.len() - i,
    {
        out.push(points[i]);
        proof {
            assert(out@ =~= points@.subrange(0, i as int + 1));
        }
        i = i + 1;
    }
    proof {
        assert(points@.subrange(0, points@.len() as int) =~= points@);
    }
    out
}

// ------------------------------------------------------------------
// Shoelace area
// ------------------------------------------------------------------

/// The cross term x_p * y_q - x_q * y_p at the ghost level.
pub open spec fn g_cross(p: Point, q: Point) -> GRat {
    g_sub(g_mul(p.x@, q.y@), g_mul(q.x@, p.y@))
}

/// The pinned cross term of two points.
pub open spec fn cross_spec(p: Point, q: Point) -> Option<Rat> {
    let a = mul_spec(p.x, q.y);
    let b = mul_spec(q.x, p.y);
    if a is Some && b is Some {
        sub_spec(a->Some_0, b->Some_0)
    } else {
        None
    }
}

fn cross_term(p: &Point, q: &Point) -> (r: Option<Rat>)
    requires
        p.wf(),
        q.wf(),
    ensures
        r == cross_spec(*p, *q),
        r is Some ==> r->Some_0.wf() && g_eqv(r->Some_0@, g_cross(*p, *q)),
{
    let a = match p.x.mul(&q.y) {
        Some(a) => a,
        None => {
            return None;
        },
    };
    let b = match q.x.mul(&p.y) {
        Some(b) => b,
        None => {
            return None;
        },
    };
    let r = a.sub(&b);
    proof {
        if r is Some {
            lemma_mul_pos(p.x@.den, q.y@.den);
            lemma_mul_pos(q.x@.den, p.y@.den);
            lemma_eqv_sub(a@, b@, g_mul(p.x@, q.y@), g_mul(q.x@, p.y@));
            lemma_mul_pos(a@.den, b@.den);
            lemma_mul_pos(g_mul(p.x@, q.y@).den, g_mul(q.x@, p.y@).den);
            lemma_eqv_trans(r->Some_0@, g_sub(a@, b@), g_cross(*p, *q));
        }
    }
    r
}

/// Index of the ring successor of i - 1 in a sequence of length n.
pub open spec fn ring_next(i: int, n: int) -> int {
    if i == n {
        0
    } else {
        i
    }
}

/// The ghost shoelace sum of the first i ring edges.
pub open spec fn g_shoelace(pts: Seq<Point>, i: int) -> GRat
    decreases i,
{
    if i <= 0 {
        g_from_int(0)
    } else {
        g_add(
            g_shoelace(pts, i - 1),
            g_cross(pts[i - 1], pts[ring_next(i, pts.len() as int)]),
        )
    }
}

/// The ghost shoelace sum has a positive denominator.
pub proof fn lemma_g_shoelace_wf(pts: Seq<Point>, i: int)
    requires
        forall|j: int| 0 <= j < pts.len() ==> (#[trigger] pts[j]).wf(),
        i <= pts.len(),
    ensures
        g_shoelace(pts, i).den > 0,
    decreases i,
{
    if i <= 0 {
    } else {
        lemma_g_shoelace_wf(pts, i - 1);
        let p = pts[i - 1];
        let q = pts[ring_next(i, pts.len() as int)];
        lemma_mul_pos(p.x@.den, q.y@.den);
        lemma_mul_pos(q.x@.den, p.y@.den);
        lemma_mul_pos(g_mul(p.x@, q.y@).den, g_mul(q.x@, p.y@).den);
        lemma_mul_pos(g_shoelace(pts, i - 1).den, g_cross(p, q).den);
    }
}

/// The pinned fold of the first i ring cross terms.
pub open spec fn shoelace_fold(pts: Seq<Point>, i: int) -> Option<Rat>
    decreases i,
{
    if i <= 0 {
        Some(rat_parts(0, 1))
    } else {
        let prev = shoelace_fold(pts, i - 1);
        let t = cross_spec(pts[i - 1], pts[ring_next(i, pts.len() as int)]);
        if prev is Some && t is Some {
            add_spec(prev->Some_0, t->Some_0)
        } else {
            None
        }
    }
}

/// The rational with the absolute value of r's numerator.
pub open spec fn abs_rat(r: Rat) -> Rat {
    rat_parts(abs_int(r@.num), r@.den)
}

/// The pinned raw area of a valid measurement.
pub open spec fn raw_area_spec(v: MeasurementV) -> Option<Rat> {
    match v.kind {
        MeasurementKind::Count => Some(rat_parts(0, 1)),
        MeasurementKind::Polyline => Some(rat_parts(0, 1)),
        MeasurementKind::Polygon => {
            let s = shoelace_fold(v.pts, v.pts.len() as int);
            if s is Some {
                mul_spec(abs_rat(s->Some_0), rat_parts(1, 2))
            } else {
                None
            }
        },
        MeasurementKind::Rectangle => rect_area_spec(v.pts[0], v.pts[1]),
    }
}

/// The ghost raw area of a measurement.
pub open spec fn g_raw_area(v: MeasurementV) -> GRat {
    match v.kind {
        MeasurementKind::Count => g_from_int(0),
        MeasurementKind::Polyline => g_from_int(0),
        MeasurementKind::Polygon => {
            let s = g_shoelace(v.pts, v.pts.len() as int);
            GRat { num: abs_int(s.num), den: 2 * s.den }
        },
        MeasurementKind::Rectangle => g_rect_area(v.pts[0], v.pts[1]),
    }
}

/// The ghost raw area |dx * dy| of the rectangle spanned by two corners.
pub open spec fn g_rect_area(c1: Point, c2: Point) -> GRat {
    let dx = g_sub(c2.x@, c1.x@);
    let dy = g_sub(c2.y@, c1.y@);
    GRat { num: abs_int(dx.num) * abs_int(dy.num), den: dx.den * dy.den }
}

/// The pinned raw area of a rectangle.
pub open spec fn rect_area_spec(c1: Point, c2: Point) -> Option<Rat> {
    let dxo = sub_spec(c2.x, c1.x);
    let dyo = sub_spec(c2.y, c1.y);
    if dxo is Some && dyo is Some {
        mul_spec(abs_rat(dxo->Some_0), abs_rat(dyo->Some_0))
    } else {
        None
    }
}

/// |dx * dy| for the rectangle spanned by two corners.
fn rect_area(c1: &Point, c2: &Point) -> (r: Option<Rat>)
    requires
        c1.wf(),
        c2.wf(),
    ensures
        r == rect_area_spec(*c1, *c2),
        r is Some ==> r->Some_0.wf() && g_eqv(r->Some_0@, g_rect_area(*c1, *c2)),
{
    let dx = match c2.x.sub(&c1.x) {
        Some(dx) => dx,
        None => {
            return None;
        },
    };
    let dy = match c2.y.sub(&c1.y) {
        Some(dy) => dy,
        None => {
            return None;
        },
    };
    let adx = dx.abs();
    let ady = dy.abs();
    proof {
        lemma_rat_parts_view(abs_int(dx@.num), dx@.den);
        lemma_rat_parts_view(abs_int(dy@.num), dy@.den);
        lemma_rat_ext(adx, abs_rat(dx));
        lemma_rat_ext(ady, abs_rat(dy));
    }
    let r = adx.mul(&ady);
    proof {
        if r is Some {
            let gdx = g_sub(c2.x@, c1.x@);
            let gdy = g_sub(c2.y@, c1.y@);
            lemma_mul_pos(c2.x@.den, c1.x@.den);
            lemma_mul_pos(c2.y@.den, c1.y@.den);
            // |dx| is equivalent to |gdx| because dx is equivalent to gdx.
            assert(g_eqv(adx@, GRat { num: abs_int(gdx.num), den: gdx.den }))
                by (nonlinear_arith)
                requires
                    dx@.num * gdx.den == gdx.num * dx@.den,
                    adx@.num == abs_int(dx@.num),
                    adx@.den == dx@.den,
                    dx@.den > 0,
                    gdx.den > 0,
            ;
            assert(g_eqv(ady@, GRat { num: abs_int(gdy.num), den: gdy.den }))
                by (nonlinear_arith)
                requires
                    dy@.num * gdy.den == gdy.num * dy@.den,
                    ady@.num == abs_int(dy@.num),
                    ady@.den == dy@.den,
                    dy@.den > 0,
                    gdy.den > 0,
            ;
            lemma_eqv_mul(
                adx@,
                ady@,
                GRat { num: abs_int(gdx.num), den: gdx.den },
                GRat { num: abs_int(gdy.num), den: gdy.den },
            );
            lemma_mul_pos(adx@.den, ady@.den);
            lemma_mul_pos(gdx.den, gdy.den);
            lemma_eqv_trans(
                r->Some_0@,
                g_mul(adx@, ady@),
                GRat { num: abs_int(gdx.num) * abs_int(gdy.num), den: gdx.den * gdy.den },
            );
        }
    }
    r
}

/// The shoelace area of a polygon: half the absolute ring cross sum.
fn shoelace_area(points: &Vec<Point>) -> (r: Option<Rat>)
    requires
        forall|i: int| 0 <= i < points@.len() ==> (#[trigger] points@[i]).wf(),
        points@.len() >= 3,
    ensures
        r == (if shoelace_fold(points@, points@.len() as int) is Some {
            mul_spec(
                abs_rat(shoelace_fold(points@, points@.len() as int)->Some_0),
                rat_parts(1, 2),
            )
        } else {
            None::<Rat>
        }),
        r is Some ==> r->Some_0.wf() && g_eqv(r->Some_0@, {
            let s = g_shoelace(points@, points@.len() as int);
            GRat { num: abs_int(s.num), den: 2 * s.den }
        }),
{
    let n = points.len();
    let mut acc = Rat::zero();
    let mut i: usize = 0;
    proof {
        lemma_rat_parts_view(0, 1);
    }
    while i < n
        invariant
            0 <= i <= n,
            n == points@.len(),
            n >= 3,
            forall|j: int| 0 <= j < points@.len() ==> (#[trigger] points@[j]).wf(),
            acc.wf(),
            Some(acc) == shoelace_fold(points@, i as int),
            g_eqv(acc@, g_shoelace(points@, i as int)),
        decreases n - i,
    {
        let j: usize = if i + 1 == n {
            0
        } else {
            i + 1
        };
        let t = match cross_term(&points[i], &points[j]) {
            Some(t) => t,
            None => {
                proof {
                    lemma_shoelace_fold_none(points@, i as int + 1, points@.len() as int);
                }
                return None;
            },
        };
        let acc2 = match acc.add(&t) {
            Some(a) => a,
            None => {
                proof {
                    lemma_shoelace_fold_none(points@, i as int + 1, points@.len() as int);
                }
                return None;
            },
        };
        proof {
            let gi = g_shoelace(points@, i as int);
            let gc = g_cross(points@[i as int], points@[ring_next(i as int + 1,
                points@.len() as int)]);
            lemma_g_shoelace_wf(points@, i as int);
            let p = points@[i as int];
            let q = points@[ring_next(i as int + 1, points@.len() as int)];
            lemma_mul_pos(p.x@.den, q.y@.den);
            lemma_mul_pos(q.x@.den, p.y@.den);
            lemma_mul_pos(g_mul(p.x@, q.y@).den, g_mul(q.x@, p.y@).den);
            lemma_eqv_add(acc@, t@, gi, gc);
            lemma_mul_pos(acc@.den, t@.den);
            lemma_mul_pos(gi.den, gc.den);
            lemma_eqv_trans(acc2@, g_add(acc@, t@), g_add(gi, gc));
        }
        acc = acc2;
        i = i + 1;
    }
    let a = acc.abs();
    proof {
        lemma_rat_parts_view(abs_int(acc@.num), acc@.den);
        lemma_rat_ext(a, abs_rat(acc));
    }
    let half = Rat::from_parts(1, 2);
    let r = a.mul(&half);
    proof {
        if r is Some {
            let s = g_shoelace(points@, points@.len() as int);
            lemma_g_shoelace_wf(points@, points@.len() as int);
            assert(g_eqv(r->Some_0@, GRat { num: abs_int(s.num), den: 2 * s.den }))
                by (nonlinear_arith)
                requires
                    r->Some_0@.num * (a@.den * 2) == (a@.num * 1) * r->Some_0@.den,
                    a@.num == abs_int(acc@.num),
                    a@.den == acc@.den,
                    acc@.num * s.den == s.num * acc@.den,
                    acc@.den > 0,
                    s.den > 0,
                    r->Some_0@.den > 0,
            ;
        }
    }
    r
}

/// Once the fold is `None` at step i, it stays `None` through step n.
proof fn lemma_shoelace_fold_none(pts: Seq<Point>, i: int, n: int)
    requires
        0 < i <= n,
        shoelace_fold(pts, i) is None,
    ensures
        shoelace_fold(pts, n) is None,
    decreases n - i,
{
    if i < n {
        lemma_shoelace_fold_none(pts, i + 1, n);
    }
}

// ------------------------------------------------------------------
// Perimeter
// ------------------------------------------------------------------

/// The distance value of one edge at the ghost level.
pub open spec fn g_dist(p: Point, q: Point) -> GRat {
    GRat { num: floor_sqrt_scaled(g_sqdist(p, q)), den: DIST_PREC as int }
}

/// The ghost sum of the first i ring edge lengths.
pub open spec fn g_perim_closed(pts: Seq<Point>, i: int) -> GRat
    decreases i,
{
    if i <= 0 {
        g_from_int(0)
    } else {
        g_add(
            g_perim_closed(pts, i - 1),
            g_dist(pts[i - 1], pts[ring_next(i, pts.len() as int)]),
        )
    }
}

/// The ghost sum of the first i open-chain edge lengths.
pub open spec fn g_perim_open(pts: Seq<Point>, i: int) -> GRat
    decreases i,
{
    if i <= 0 {
        g_from_int(0)
    } else {
        g_add(g_perim_open(pts, i - 1), g_dist(pts[i - 1], pts[i]))
    }
}

/// The pinned fold of the first i ring edge lengths.
pub open spec fn perim_closed_fold(pts: Seq<Point>, i: int) -> Option<Rat>
    decreases i,
{
    if i <= 0 {
        Some(rat_parts(0, 1))
    } else {
        let prev = perim_closed_fold(pts, i - 1);
        let t = dist_rat_spec(pts[i - 1], pts[ring_next(i, pts.len() as int)]);
        if prev is Some && t is Some {
            add_spec(prev->Some_0, t->Some_0)
        } else {
            None
        }
    }
}

/// The pinned fold of the first i open-chain edge lengths.
pub open spec fn perim_open_fold(pts: Seq<Point>, i: int) -> Option<Rat>
    decreases i,
{
    if i <= 0 {
        Some(rat_parts(0, 1))
    } else {
        let prev = perim_open_fold(pts, i - 1);
        let t = dist_rat_spec(pts[i - 1], pts[i]);
        if prev is Some && t is Some {
            add_spec(prev->Some_0, t->Some_0)
        } else {
            None
        }
    }
}

/// The four ring corners of the rectangle spanned by two corners.
pub open spec fn rect_ring_spec(c1: Point, c2: Point) -> Seq<Point> {
    seq![
        c1,
        Point { x: c2.x, y: c1.y },
        c2,
        Point { x: c1.x, y: c2.y },
    ]
}

/// The pinned raw perimeter of a valid measurement.
pub open spec fn raw_perimeter_spec(v: MeasurementV) -> Option<Rat> {
    match v.kind {
        MeasurementKind::Count => Some(rat_parts(0, 1)),
        MeasurementKind::Polygon => perim_closed_fold(v.pts, v.pts.len() as int),
        MeasurementKind::Rectangle => perim_closed_fold(
            rect_ring_spec(v.pts[0], v.pts[1]),
            4,
        ),
        MeasurementKind::Polyline => perim_open_fold(v.pts, v.pts.len() as int - 1),
    }
}

/// The ghost raw perimeter of a measurement.
pub open spec fn g_raw_perimeter(v: MeasurementV) -> GRat {
    match v.kind {
        MeasurementKind::Count => g_from_int(0),
        MeasurementKind::Polygon => g_perim_closed(v.pts, v.pts.len() as int),
        MeasurementKind::Rectangle => g_perim_closed(
            rect_ring_spec(v.pts[0], v.pts[1]),
            4,
        ),
        MeasurementKind::Polyline => g_perim_open(v.pts, v.pts.len() as int - 1),
    }
}

/// The ghost perimeter sums have positive denominators.
pub proof fn lemma_g_perim_closed_wf(pts: Seq<Point>, i: int)
    ensures
        g_perim_closed(pts, i).den > 0,
    decreases i,
{
    if i <= 0 {
    } else {
        lemma_g_perim_closed_wf(pts, i - 1);
        lemma_mul_pos(g_perim_closed(pts, i - 1).den, DIST_PREC as int);
    }
}

pub proof fn lemma_g_perim_open_wf(pts: Seq<Point>, i: int)
    ensures
        g_perim_open(pts, i).den > 0,
    decreases i,
{
    if i <= 0 {
    } else {
        lemma_g_perim_open_wf(pts, i - 1);
        lemma_mul_pos(g_perim_open(pts, i - 1).den, DIST_PREC as int);
    }
}

proof fn lemma_perim_closed_fold_none(pts: Seq<Point>, i: int, n: int)
    requires
        0 < i <= n,
        perim_closed_fold(pts, i) is None,
    ensures
        perim_closed_fold(pts, n) is None,
    decreases n - i,
{
    if i < n {
        lemma_perim_closed_fold_none(pts, i + 1, n);
    }
}

proof fn lemma_perim_open_fold_none(pts: Seq<Point>, i: int, n: int)
    requires
        0 < i <= n,
        perim_open_fold(pts, i) is None,
    ensures
        perim_open_fold(pts, n) is None,
    decreases n - i,
{
    if i < n {
        lemma_perim_open_fold_none(pts, i + 1, n);
    }
}

/// Build the rectangle's four ring corners.
fn rect_ring(c1: &Point, c2: &Point) -> (r: Vec<Point>)
    ensures
        r@ == rect_ring_spec(*c1, *c2),
{
    let mut v: Vec<Point> = Vec::new();
    v.push(*c1);
    v.push(Point { x: c2.x, y: c1.y });
    v.push(*c2);
    v.push(Point { x: c1.x, y: c2.y });
    proof {
        assert(v@ =~= rect_ring_spec(*c1, *c2));
    }
    v
}

/// The closed ring perimeter: consecutive edges plus the wrap-around edge.
fn closed_perimeter(points: &Vec<Point>) -> (r: Option<Rat>)
    requires
        forall|i: int| 0 <= i < points@.len() ==> (#[trigger] points@[i]).wf(),
        points@.len() >= 1,
    ensures
        r == perim_closed_fold(points@, points@.len() as int),
        r is Some ==> r->Some_0.wf() && g_eqv(
            r->Some_0@,
            g_perim_closed(points@, points@.len() as int),
        ),
{
    let n = points.len();
    let mut acc = Rat::zero();
    let mut i: usize = 0;
    proof {
        lemma_rat_parts_view(0, 1);
    }
    while i < n
        invariant
            0 <= i <= n,
            n == points@.len(),
            forall|j: int| 0 <= j < points@.len() ==> (#[trigger] points@[j]).wf(),
            acc.wf(),
            Some(acc) == perim_closed_fold(points@, i as int),
            g_eqv(acc@, g_perim_closed(points@, i as int)),
        decreases n - i,
    {
        let j: usize = if i + 1 == n {
            0
        } else {
            i + 1
        };
        let t = match points[i].distance_to(&points[j]) {
            Some(t) => t,
            None => {
                proof {
                    lemma_perim_closed_fold_none(points@, i as int + 1,
                        points@.len() as int);
                }
                return None;
            },
        };
        let acc2 = match acc.add(&t) {
            Some(a) => a,
            None => {
                proof {
                    lemma_perim_closed_fold_none(points@, i as int + 1,
                        points@.len() as int);
                }
                return None;
            },
        };
        proof {
            let gi = g_perim_closed(points@, i as int);
            let gd = g_dist(points@[i as int], points@[ring_next(i as int + 1,
                points@.len() as int)]);
            lemma_g_perim_closed_wf(points@, i as int);
            lemma_eqv_add(acc@, t@, gi, gd);
            lemma_mul_pos(acc@.den, t@.den);
            lemma_mul_pos(gi.den, gd.den);
            lemma_eqv_trans(acc2@, g_add(acc@, t@), g_add(gi, gd));
        }
        acc = acc2;
        i = i + 1;
    }
    Some(acc)
}

/// The open chain length: consecutive edges, no closing edge.
fn open_perimeter(points: &Vec<Point>) -> (r: Option<Rat>)
    requires
        forall|i: int| 0 <= i < points@.len() ==> (#[trigger] points@[i]).wf(),
        points@.len() >= 2,
    ensures
        r == perim_open_fold(points@, points@.len() as int - 1),
        r is Some ==> r->Some_0.wf() && g_eqv(
            r->Some_0@,
            g_perim_open(points@, points@.len() as int - 1),
        ),
{
    let n = points.len();
    let mut acc = Rat::zero();
    let mut i: usize = 0;
    proof {
        lemma_rat_parts_view(0, 1);
    }
    while i < n - 1
        invariant
            0 <= i <= n - 1,
            n == points@.len(),
            n >= 2,
            forall|j: int| 0 <= j < points@.len() ==> (#[trigger] points@[j]).wf(),
            acc.wf(),
            Some(acc) == perim_open_fold(points@, i as int),
            g_eqv(acc@, g_perim_open(points@, i as int)),
        decreases n - i,
    {
        let t = match points[i].distance_to(&points[i + 1]) {
            Some(t) => t,
            None => {
                proof {
                    lemma_perim_open_fold_none(points@, i as int + 1,
                        points@.len() as int - 1);
                }
                return None;
            },
        };
        let acc2 = match acc.add(&t) {
            Some(a) => a,
            None => {
                proof {
                    lemma_perim_open_fold_none(points@, i as int + 1,
                        points@.len() as int - 1);
                }
                return None;
            },
        };
        proof {
            let gi = g_perim_open(points@, i as int);
            let gd = g_dist(points@[i as int], points@[i as int + 1]);
            lemma_g_perim_open_wf(points@, i as int);
            lemma_eqv_add(acc@, t@, gi, gd);
            lemma_mul_pos(acc@.den, t@.den);
            lemma_mul_pos(gi.den, gd.den);
            lemma_eqv_trans(acc2@, g_add(acc@, t@), g_add(gi, gd));
        }
        acc = acc2;
        i = i + 1;
    }
    Some(acc)
}

} // verus!
