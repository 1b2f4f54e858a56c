//! Points in pixel space and Euclidean distance.
//!
//! Coordinates are exact rationals. A Euclidean distance is generally
//! irrational, so distances are computed at a fixed precision: the result is
//! the largest multiple of 1/`DIST_PREC` whose square does not exceed the
//! exact squared distance. Distances on axis-aligned segments and
//! Pythagorean configurations are exact.

use vstd::prelude::*;
use vstd::arithmetic::div_mod::lemma_fundamental_div_mod;
use crate::rat::{
    Rat, GRat, g_eqv, g_add, g_sub, g_mul, sub_spec, mul_spec, add_spec, lemma_eqv_sub,
    lemma_eqv_mul, lemma_eqv_add, lemma_mul_pos, RAT_LIMIT,
};

verus! {

/// Denominator of every computed distance: micro-unit precision.
pub const DIST_PREC: i128 = 1000000;

/// A 2D point with exact rational coordinates.
#[derive(Debug, Clone, Copy, PartialEq)]
pub struct Point {
    pub x: Rat,
    pub y: Rat,
}

/// The exact squared distance between two points, at the ghost level.
pub open spec fn g_sqdist(p: Point, q: Point) -> GRat {
    let dx = g_sub(p.x@, q.x@);
    let dy = g_sub(p.y@, q.y@);
    g_add(g_mul(dx, dx), g_mul(dy, dy))
}

/// `k / DIST_PREC` is the floor of the square root of the nonnegative
/// rational `s` at precision 1/`DIST_PREC`.
pub open spec fn is_floor_sqrt_scaled(s: GRat, k: int) -> bool {
    0 <= k && k * k * s.den <= DIST_PREC * DIST_PREC * s.num && DIST_PREC * DIST_PREC
        * s.num < (k + 1) * (k + 1) * s.den
}

/// The scaled floor square root of `s` (unique when `s.den > 0`).
pub open spec fn floor_sqrt_scaled(s: GRat) -> int {
    choose|k: int| is_floor_sqrt_scaled(s, k)
}

/// The scaled floor square root is unique.
pub proof fn lemma_floor_sqrt_unique(s: GRat, k1: int, k2: int)
    requires
        s.den > 0,
        is_floor_sqrt_scaled(s, k1),
        is_floor_sqrt_scaled(s, k2),
    ensures
        k1 == k2,
{
    assert(k1 == k2) by (nonlinear_arith)
        requires
            s.den > 0,
            0 <= k1,
            0 <= k2,
            k1 * k1 * s.den <= DIST_PREC * DIST_PREC * s.num,
            DIST_PREC * DIST_PREC * s.num < (k1 + 1) * (k1 + 1) * s.den,
            k2 * k2 * s.den <= DIST_PREC * DIST_PREC * s.num,
            DIST_PREC * DIST_PREC * s.num < (k2 + 1) * (k2 + 1) * s.den,
    ;
}

/// The scaled floor square root carries across value equivalence.
pub proof fn lemma_floor_sqrt_eqv(s1: GRat, s2: GRat, k: int)
    requires
        s1.den > 0,
        s2.den > 0,
        g_eqv(s1, s2),
        is_floor_sqrt_scaled(s1, k),
    ensures
        is_floor_sqrt_scaled(s2, k),
{
    assert(k * k * s2.den <= DIST_PREC * DIST_PREC * s2.num && DIST_PREC * DIST_PREC
        * s2.num < (k + 1) * (k + 1) * s2.den) by (nonlinear_arith)
        requires
            s1.den > 0,
            s2.den > 0,
            s1.num * s2.den == s2.num * s1.den,
            0 <= k,
            k * k * s1.den <= DIST_PREC * DIST_PREC * s1.num,
            DIST_PREC * DIST_PREC * s1.num < (k + 1) * (k + 1) * s1.den,
    ;
}

/// Floor of the integer square root.
pub fn isqrt(x: u128) -> (r: u128)
    ensures
        r * r <= x < (r + 1) * (r + 1),
{
    let mut lo: u128 = 0;
    let mut hi: u128 = 0x1_0000_0000_0000_0000;
    proof {
        assert((0x1_0000_0000_0000_0000 as int) * (0x1_0000_0000_0000_0000 as int) > x
            as int) by (nonlinear_arith)
            requires
                x <= u128::MAX,
        ;
    }
    while lo + 1 < hi
        invariant
            lo < hi,
            hi <= 0x1_0000_0000_0000_0000,
            (lo as int) * (lo as int) <= x as int,
            (hi as int) * (hi as int) > x as int,
        decreases hi - lo,
    {
        let mid: u128 = lo + (hi - lo) / 2;
        proof {
            assert((mid as int) * (mid as int) <= u128::MAX) by (nonlinear_arith)
                requires
                    mid < 0x1_0000_0000_0000_0000,
            ;
        }
        if mid * mid <= x {
            lo = mid;
        } else {
            hi = mid;
        }
    }
    lo
}

/// The pinned squared distance between two points: `None` exactly when an
/// intermediate reduced value exceeds the representation bounds.
/// The pinned result of `Point::distance_to`.
pub open spec fn dist_rat_spec(p: Point, q: Point) -> Option<Rat> {
    if sqdist_spec(p, q) is Some {
        Some(crate::rat::rat_parts(floor_sqrt_scaled(g_sqdist(p, q)), DIST_PREC as int))
    } else {
        None
    }
}

pub open spec fn sqdist_spec(p: Point, q: Point) -> Option<Rat> {
    let dxo = sub_spec(p.x, q.x);
    let dyo = sub_spec(p.y, q.y);
    if dxo is Some && dyo is Some {
        let dx2o = mul_spec(dxo->Some_0, dxo->Some_0);
        let dy2o = mul_spec(dyo->Some_0, dyo->Some_0);
        if dx2o is Some && dy2o is Some {
            add_spec(dx2o->Some_0, dy2o->Some_0)
        } else {
            None
        }
    } else {
        None
    }
}

impl Point {
    pub open spec fn wf(self) -> bool {
        self.x.wf() && self.y.wf()
    }

    pub fn new(x: Rat, y: Rat) -> (r: Point)
        ensures
            r == (Point { x, y }),
    {
        Point { x, y }
    }

    /// The Euclidean distance to `other`, as the largest multiple of
    /// 1/`DIST_PREC` whose square does not exceed the exact squared
    /// distance. `None` exactly when an intermediate value of the squared
    /// distance leaves the representation bounds.
    pub fn distance_to(&self, other: &Point) -> (r: Option<Rat>)
        requires
            self.wf(),
            other.wf(),
        ensures
            r == dist_rat_spec(*self, *other),
            r is Some <==> sqdist_spec(*self, *other) is Some,
            r is Some ==> {
                let d = r->Some_0;
                d.wf() && d@.den == DIST_PREC && d@.num == floor_sqrt_scaled(
                    g_sqdist(*self, *other),
                ) && is_floor_sqrt_scaled(g_sqdist(*self, *other), d@.num)
            },
    {
        let ghost gs = g_sqdist(*self, *other);
        let dxo = self.x.sub(&other.x);
        let dyo = self.y.sub(&other.y);
        let (dx, dy) = match (dxo, dyo) {
            (Some(dx), Some(dy)) => (dx, dy),
            _ => {
                return None;
            },
        };
        let dx2o = dx.mul(&dx);
        let dy2o = dy.mul(&dy);
        let (dx2, dy2) = match (dx2o, dy2o) {
            (Some(dx2), Some(dy2)) => (dx2, dy2),
            _ => {
                return None;
            },
        };
        let so = dx2.add(&dy2);
        let s = match so {
            Some(s) => s,
            None => {
                return None;
            },
        };
        proof {
            let gdx = g_sub(self.x@, other.x@);
            let gdy = g_sub(self.y@, other.y@);
            lemma_mul_pos(self.x@.den, other.x@.den);
            lemma_mul_pos(self.y@.den, other.y@.den);
            lemma_eqv_mul(dx@, dx@, gdx, gdx);
            lemma_eqv_mul(dy@, dy@, gdy, gdy);
            lemma_mul_pos(dx@.den, dx@.den);
            lemma_mul_pos(dy@.den, dy@.den);
            lemma_mul_pos(gdx.den, gdx.den);
            lemma_mul_pos(gdy.den, gdy.den);
            crate::rat::lemma_eqv_trans(dx2@, g_mul(dx@, dx@), g_mul(gdx, gdx));
            crate::rat::lemma_eqv_trans(dy2@, g_mul(dy@, dy@), g_mul(gdy, gdy));
            lemma_eqv_add(dx2@, dy2@, g_mul(gdx, gdx), g_mul(gdy, gdy));
            lemma_mul_pos(dx2@.den, dy2@.den);
            lemma_mul_pos(g_mul(gdx, gdx).den, g_mul(gdy, gdy).den);
            crate::rat::lemma_eqv_trans(s@, g_add(dx2@, dy2@), gs);
            // The squared distance is nonnegative, so s.num >= 0.
            assert(gs.num >= 0 && gs.den > 0) by (nonlinear_arith)
                requires
                    gs.num == (gdx.num * gdx.num) * (gdy.den * gdy.den) + (gdy.num
                        * gdy.num) * (gdx.den * gdx.den),
                    gs.den == (gdx.den * gdx.den) * (gdy.den * gdy.den),
                    gdx.den > 0,
                    gdy.den > 0,
            ;
            assert(s@.num >= 0) by (nonlinear_arith)
                requires
                    s@.num * gs.den == gs.num * s@.den,
                    gs.num >= 0,
                    gs.den > 0,
                    s@.den > 0,
            ;
            assert(0 <= DIST_PREC * DIST_PREC * s@.num <= DIST_PREC * DIST_PREC
                * RAT_LIMIT < i128::MAX) by (nonlinear_arith)
                requires
                    0 <= s@.num <= RAT_LIMIT,
            ;
        }
        let num: i128 = s.numerator();
        let den: i128 = s.denominator();
        proof {
            vstd::arithmetic::div_mod::lemma_div_pos_is_pos(
                DIST_PREC * DIST_PREC * (num as int),
                den as int,
            );
        }
        let q: i128 = (DIST_PREC * DIST_PREC * num) / den;
        let k: u128 = isqrt(q as u128);
        proof {
            let pn = DIST_PREC * DIST_PREC * (num as int);
            lemma_fundamental_div_mod(pn, den as int);
            assert(q as int * (den as int) <= pn < ((q as int) + 1) * (den as int))
                by (nonlinear_arith)
                requires
                    pn == (den as int) * (q as int) + pn % (den as int),
                    0 <= pn % (den as int) < den as int,
                    den > 0,
            ;
            let ki = k as int;
            assert(is_floor_sqrt_scaled(s@, ki)) by (nonlinear_arith)
                requires
                    0 <= ki,
                    ki * ki <= q as int,
                    (q as int) < (ki + 1) * (ki + 1),
                    q as int * (den as int) <= pn,
                    pn < ((q as int) + 1) * (den as int),
                    pn == DIST_PREC * DIST_PREC * (num as int),
                    num as int == s@.num,
                    den as int == s@.den,
                    den > 0,
            ;
            lemma_floor_sqrt_eqv(s@, gs, ki);
            // k is bounded: k^2 <= q <= DIST_PREC^2 * RAT_LIMIT.
            assert(ki <= RAT_LIMIT) by (nonlinear_arith)
                requires
                    0 <= ki,
                    ki * ki <= q as int,
                    (q as int) <= DIST_PREC * DIST_PREC * RAT_LIMIT,
            ;
            assert(exists|k2: int| is_floor_sqrt_scaled(gs, k2)) by {
                assert(is_floor_sqrt_scaled(gs, ki));
            }
            lemma_floor_sqrt_unique(gs, ki, floor_sqrt_scaled(gs));
        }
        Some(Rat::from_parts(k as i128, DIST_PREC))
    }
}

} // verus!
