//! Exact rational arithmetic.
//!
//! Every scalar quantity of the engine (pixel coordinates, scale ratios,
//! areas, lengths) is an exact rational number: an `i128` numerator over a
//! positive `i128` denominator, kept reduced by the Euclidean gcd. The
//! mathematical value of a rational is described at the ghost level by
//! [`GRat`], an unbounded numerator/denominator pair, and contracts speak
//! of values through the equivalence [`g_eqv`].

use vstd::prelude::*;
use vstd::arithmetic::div_mod::{
    lemma_fundamental_div_mod, lemma_mod_multiples_basic, lemma_div_pos_is_pos,
    lemma_div_nonincreasing,
};

verus! {

/// A ghost rational number: unbounded numerator and denominator.
/// Well-formed values have a positive denominator.
pub ghost struct GRat {
    pub num: int,
    pub den: int,
}

/// Largest magnitude allowed for a stored numerator or denominator.
/// Keeping both within `i64` range lets every product of two stored
/// components fit in an `i128` with room for one addition.
pub const RAT_LIMIT: i128 = 0x7fff_ffff_ffff_ffff;

pub open spec fn g_wf(a: GRat) -> bool {
    a.den > 0
}

/// Two ghost rationals denote the same value.
pub open spec fn g_eqv(a: GRat, b: GRat) -> bool {
    a.num * b.den == b.num * a.den
}

pub open spec fn g_add(a: GRat, b: GRat) -> GRat {
    GRat { num: a.num * b.den + b.num * a.den, den: a.den * b.den }
}

pub open spec fn g_sub(a: GRat, b: GRat) -> GRat {
    GRat { num: a.num * b.den - b.num * a.den, den: a.den * b.den }
}

pub open spec fn g_mul(a: GRat, b: GRat) -> GRat {
    GRat { num: a.num * b.num, den: a.den * b.den }
}

pub open spec fn g_neg(a: GRat) -> GRat {
    GRat { num: -a.num, den: a.den }
}

/// The quotient a / b, for b with a nonzero numerator; the denominator is
/// kept positive by moving b's sign into the numerator.
pub open spec fn g_div(a: GRat, b: GRat) -> GRat {
    if b.num >= 0 {
        GRat { num: a.num * b.den, den: a.den * b.num }
    } else {
        GRat { num: -(a.num * b.den), den: a.den * (-b.num) }
    }
}

/// Value comparison of two well-formed ghost rationals.
pub open spec fn g_le(a: GRat, b: GRat) -> bool {
    a.num * b.den <= b.num * a.den
}

pub open spec fn g_from_int(n: int) -> GRat {
    GRat { num: n, den: 1 }
}

/// An exact rational number with bounded, reduced representation.
#[derive(Clone, Copy, Debug, PartialEq)]
pub struct Rat {
    num: i128,
    den: i128,
}

impl View for Rat {
    type V = GRat;

    closed spec fn view(&self) -> GRat {
        GRat { num: self.num as int, den: self.den as int }
    }
}

/// Euclid's greatest common divisor, as a recursive specification.
pub open spec fn gcd_spec(a: nat, b: nat) -> nat
    decreases b,
{
    if b == 0 {
        a
    } else {
        gcd_spec(b, a % b)
    }
}

/// The gcd of `a` and a positive `b` is positive and divides both.
pub proof fn lemma_gcd_divides(a: nat, b: nat)
    requires
        b > 0,
    ensures
        gcd_spec(a, b) > 0,
        a as int % (gcd_spec(a, b) as int) == 0,
        b as int % (gcd_spec(a, b) as int) == 0,
    decreases b,
{
    let g = gcd_spec(a, b) as int;
    let r = a % b;
    if r == 0 {
        // gcd_spec(b, 0) == b
        assert(gcd_spec(a, b) == b);
        lemma_mod_multiples_basic(a as int / b as int, b as int);
        lemma_fundamental_div_mod(a as int, b as int);
        assert(a as int == b as int * (a as int / b as int));
        assert((b as int * (a as int / b as int)) % (b as int) == 0);
    } else {
        lemma_gcd_divides(b, r);
        assert(gcd_spec(a, b) == gcd_spec(b, r));
        // g divides b and r; a == b * (a / b) + r, so g divides a.
        lemma_fundamental_div_mod(a as int, b as int);
        let q = a as int / b as int;
        lemma_fundamental_div_mod(b as int, g);
        let kb = b as int / g;
        assert(b as int == g * kb);
        lemma_fundamental_div_mod(r as int, g);
        let kr = r as int / g;
        assert(r as int == g * kr);
        assert(a as int == (kb * q + kr) * g) by (nonlinear_arith)
            requires
                a as int == b as int * q + r,
                b as int == g * kb,
                r as int == g * kr,
        ;
        lemma_mod_multiples_basic(kb * q + kr, g);
    }
}

/// Numerator of the reduced form of n / d.
pub open spec fn norm_num(n: int, d: int) -> int {
    let g = gcd_spec(abs_int(n) as nat, d as nat) as int;
    if n >= 0 {
        n / g
    } else {
        -((-n) / g)
    }
}

/// Denominator of the reduced form of n / d.
pub open spec fn norm_den(n: int, d: int) -> int {
    let g = gcd_spec(abs_int(n) as nat, d as nat) as int;
    d / g
}

pub open spec fn abs_int(n: int) -> int {
    if n >= 0 {
        n
    } else {
        -n
    }
}

/// Whether the reduced form of n / d fits within the stored bounds.
pub open spec fn norm_fits(n: int, d: int) -> bool {
    -RAT_LIMIT <= norm_num(n, d) <= RAT_LIMIT && norm_den(n, d) <= RAT_LIMIT
}

/// The reduced, bounded representation of n / d (meaningful when it fits).
pub closed spec fn norm_rat(n: int, d: int) -> Rat {
    Rat { num: norm_num(n, d) as i128, den: norm_den(n, d) as i128 }
}

/// Reduction preserves the denoted value and never grows a component.
pub proof fn lemma_norm(n: int, d: int)
    requires
        d > 0,
    ensures
        norm_den(n, d) >= 1,
        norm_den(n, d) <= d,
        abs_int(norm_num(n, d)) <= abs_int(n),
        norm_num(n, d) * d == n * norm_den(n, d),
{
    let na = abs_int(n);
    lemma_gcd_divides(na as nat, d as nat);
    let g = gcd_spec(na as nat, d as nat) as int;
    lemma_fundamental_div_mod(na, g);
    lemma_fundamental_div_mod(d, g);
    let kn = na / g;
    let kd = d / g;
    assert(na == g * kn);
    assert(d == g * kd);
    lemma_div_pos_is_pos(d, g);
    assert(kd >= 1) by (nonlinear_arith)
        requires
            d == g * kd,
            d > 0,
            g > 0,
            kd >= 0,
    ;
    lemma_div_nonincreasing(d, g);
    lemma_div_pos_is_pos(na, g);
    lemma_div_nonincreasing(na, g);
    // Value preservation: (±kn) * d == (±na) * kd.
    assert(kn * d == na * kd) by (nonlinear_arith)
        requires
            na == g * kn,
            d == g * kd,
            g > 0,
    ;
    if n >= 0 {
        assert(norm_num(n, d) == kn);
    } else {
        assert(norm_num(n, d) == -kn);
        assert((-kn) * d == n * kd) by (nonlinear_arith)
            requires
                kn * d == na * kd,
                na == -n,
        ;
    }
}

/// Euclid's algorithm; the result is exactly `gcd_spec`.
fn gcd(a: i128, b: i128) -> (r: i128)
    requires
        a >= 0,
        b > 0,
    ensures
        r == gcd_spec(a as nat, b as nat),
        r > 0,
{
    proof {
        lemma_gcd_divides(a as nat, b as nat);
    }
    let mut x: i128 = a;
    let mut y: i128 = b;
    while y != 0
        invariant
            x >= 0,
            y >= 0,
            gcd_spec(x as nat, y as nat) == gcd_spec(a as nat, b as nat),
        decreases y,
    {
        let t: i128 = x % y;
        x = y;
        y = t;
    }
    x
}

impl Rat {
    /// Representation invariant: positive denominator, both components bounded.
    pub open spec fn wf(self) -> bool {
        0 < self@.den <= RAT_LIMIT && -RAT_LIMIT <= self@.num <= RAT_LIMIT
    }

    /// Reduce and bound-check the fraction n / d.
    fn reduce(n: i128, d: i128) -> (r: Option<Rat>)
        requires
            d > 0,
            -i128::MAX <= n,
        ensures
            r == if norm_fits(n as int, d as int) {
                Some(norm_rat(n as int, d as int))
            } else {
                None::<Rat>
            },
            r is Some ==> r->Some_0.wf() && g_eqv(
                r->Some_0@,
                GRat { num: n as int, den: d as int },
            ),
            -RAT_LIMIT <= n <= RAT_LIMIT && d <= RAT_LIMIT ==> r is Some,
    {
        proof {
            lemma_norm(n as int, d as int);
        }
        let na: i128 = if n >= 0 {
            n
        } else {
            -n
        };
        let g: i128 = gcd(na, d);
        let nn: i128 = na / g;
        let dd: i128 = d / g;
        let num: i128 = if n >= 0 {
            nn
        } else {
            -nn
        };
        proof {
            assert(nn == abs_int(n as int) / (gcd_spec(abs_int(n as int) as nat,
                d as nat) as int));
            assert(num == norm_num(n as int, d as int));
            assert(dd == norm_den(n as int, d as int));
        }
        if num < -RAT_LIMIT || num > RAT_LIMIT || dd > RAT_LIMIT {
            None
        } else {
            Some(Rat { num, den: dd })
        }
    }

    /// The rational n (an integer value).
    pub fn from_int(n: i64) -> (r: Rat)
        requires
            -RAT_LIMIT <= n as int,
        ensures
            r.wf(),
            r == rat_parts(n as int, 1),
            r@ == g_from_int(n as int),
    {
        Rat { num: n as i128, den: 1 }
    }

    /// The rational n / d.
    pub fn new(n: i64, d: i64) -> (r: Option<Rat>)
        requires
            -RAT_LIMIT <= n as int,
            -RAT_LIMIT <= d as int,
        ensures
            d != 0 ==> r is Some,
            r is Some ==> r->Some_0.wf() && g_eqv(
                r->Some_0@,
                GRat { num: n as int, den: d as int },
            ),
            d == 0 ==> r is None,
            d > 0 ==> r == Some(norm_rat(n as int, d as int)),
            d < 0 ==> r == Some(norm_rat(-(n as int), -(d as int))),
    {
        if d == 0 {
            None
        } else if d > 0 {
            proof {
                lemma_norm(n as int, d as int);
            }
            Rat::reduce(n as i128, d as i128)
        } else {
            proof {
                lemma_norm(-(n as int), -(d as int));
            }
            let r = Rat::reduce(-(n as i128), -(d as i128));
            proof {
                let rv = r->Some_0@;
                assert(g_eqv(rv, GRat { num: n as int, den: d as int }))
                    by (nonlinear_arith)
                    requires
                        rv.num * (-(d as int)) == (-(n as int)) * rv.den,
                ;
            }
            r
        }
    }

    /// The rational num / den with that exact representation (not reduced).
    pub fn from_parts(num: i128, den: i128) -> (r: Rat)
        requires
            0 < den <= RAT_LIMIT,
            -RAT_LIMIT <= num <= RAT_LIMIT,
        ensures
            r.wf(),
            r == rat_parts(num as int, den as int),
            r@ == (GRat { num: num as int, den: den as int }),
    {
        Rat { num, den }
    }

    pub fn zero() -> (r: Rat)
        ensures
            r.wf(),
            r == rat_parts(0, 1),
            r@ == g_from_int(0),
    {
        Rat { num: 0, den: 1 }
    }

    /// The exact sum, reduced; `None` when the reduced result exceeds the
    /// representation bounds.
    pub fn add(&self, other: &Rat) -> (r: Option<Rat>)
        requires
            self.wf(),
            other.wf(),
        ensures
            r == add_spec(*self, *other),
            r is Some ==> r->Some_0.wf() && g_eqv(r->Some_0@, g_add(self@, other@)),
    {
        proof {
            lemma_raw_bounds(*self, *other);
        }
        let n: i128 = self.num * other.den + other.num * self.den;
        let d: i128 = self.den * other.den;
        Rat::reduce(n, d)
    }

    /// The exact difference, reduced.
    pub fn sub(&self, other: &Rat) -> (r: Option<Rat>)
        requires
            self.wf(),
            other.wf(),
        ensures
            r == sub_spec(*self, *other),
            r is Some ==> r->Some_0.wf() && g_eqv(r->Some_0@, g_sub(self@, other@)),
    {
        proof {
            lemma_raw_bounds(*self, *other);
        }
        let n: i128 = self.num * other.den - other.num * self.den;
        let d: i128 = self.den * other.den;
        Rat::reduce(n, d)
    }

    /// The exact product, reduced.
    pub fn mul(&self, other: &Rat) -> (r: Option<Rat>)
        requires
            self.wf(),
            other.wf(),
        ensures
            r == mul_spec(*self, *other),
            r is Some ==> r->Some_0.wf() && g_eqv(r->Some_0@, g_mul(self@, other@)),
    {
        proof {
            lemma_raw_bounds(*self, *other);
        }
        let n: i128 = self.num * other.num;
        let d: i128 = self.den * other.den;
        Rat::reduce(n, d)
    }

    /// The exact quotient, reduced; the divisor must be nonzero.
    pub fn div(&self, other: &Rat) -> (r: Option<Rat>)
        requires
            self.wf(),
            other.wf(),
            other@.num != 0,
        ensures
            r == div_spec(*self, *other),
            r is Some ==> r->Some_0.wf() && g_eqv(r->Some_0@, g_div(self@, other@)),
    {
        proof {
            lemma_raw_bounds(*self, *other);
        }
        if other.num >= 0 {
            let n: i128 = self.num * other.den;
            proof {
                assert(0 < self@.den * other@.num <= RAT_LIMIT * RAT_LIMIT)
                    by (nonlinear_arith)
                    requires
                        0 < self@.den <= RAT_LIMIT,
                        0 < other@.num <= RAT_LIMIT,
                ;
            }
            let d: i128 = self.den * other.num;
            Rat::reduce(n, d)
        } else {
            proof {
                assert(0 < self@.den * (-other@.num) <= RAT_LIMIT * RAT_LIMIT)
                    by (nonlinear_arith)
                    requires
                        0 < self@.den <= RAT_LIMIT,
                        0 < -other@.num <= RAT_LIMIT,
                ;
            }
            let n: i128 = -(self.num * other.den);
            let d: i128 = self.den * (-other.num);
            Rat::reduce(n, d)
        }
    }

    /// Exact negation.
    pub fn neg(&self) -> (r: Rat)
        requires
            self.wf(),
        ensures
            r.wf(),
            r@ == g_neg(self@),
    {
        Rat { num: -self.num, den: self.den }
    }

    /// Exact absolute value.
    pub fn abs(&self) -> (r: Rat)
        requires
            self.wf(),
        ensures
            r.wf(),
            r@ == (GRat { num: abs_int(self@.num), den: self@.den }),
    {
        if self.num < 0 {
            Rat { num: -self.num, den: self.den }
        } else {
            *self
        }
    }

    /// Exact value comparison.
    pub fn le(&self, other: &Rat) -> (r: bool)
        requires
            self.wf(),
            other.wf(),
        ensures
            r == g_le(self@, other@),
    {
        proof {
            lemma_raw_bounds(*self, *other);
        }
        self.num * other.den <= other.num * self.den
    }

    /// Exact value equality.
    pub fn eq_val(&self, other: &Rat) -> (r: bool)
        requires
            self.wf(),
            other.wf(),
        ensures
            r == g_eqv(self@, other@),
    {
        proof {
            lemma_raw_bounds(*self, *other);
        }
        self.num * other.den == other.num * self.den
    }

    /// Whether the value is exactly zero.
    pub fn is_zero(&self) -> (r: bool)
        requires
            self.wf(),
        ensures
            r == (self@.num == 0),
    {
        self.num == 0
    }

    /// Whether the value is strictly positive.
    pub fn is_positive(&self) -> (r: bool)
        requires
            self.wf(),
        ensures
            r == (self@.num > 0),
    {
        self.num > 0
    }

    /// The numerator of the reduced representation.
    pub fn numerator(&self) -> (r: i128)
        ensures
            r == self@.num,
    {
        self.num
    }

    /// The denominator of the reduced representation.
    pub fn denominator(&self) -> (r: i128)
        ensures
            r == self@.den,
    {
        self.den
    }
}

/// The pinned result of `Rat::add`.
pub open spec fn add_spec(a: Rat, b: Rat) -> Option<Rat> {
    let n = a@.num * b@.den + b@.num * a@.den;
    let d = a@.den * b@.den;
    if norm_fits(n, d) {
        Some(norm_rat(n, d))
    } else {
        None
    }
}

/// The pinned result of `Rat::sub`.
pub open spec fn sub_spec(a: Rat, b: Rat) -> Option<Rat> {
    let n = a@.num * b@.den - b@.num * a@.den;
    let d = a@.den * b@.den;
    if norm_fits(n, d) {
        Some(norm_rat(n, d))
    } else {
        None
    }
}

/// The pinned result of `Rat::mul`.
pub open spec fn mul_spec(a: Rat, b: Rat) -> Option<Rat> {
    let n = a@.num * b@.num;
    let d = a@.den * b@.den;
    if norm_fits(n, d) {
        Some(norm_rat(n, d))
    } else {
        None
    }
}

/// The pinned result of `Rat::div`.
pub open spec fn div_spec(a: Rat, b: Rat) -> Option<Rat> {
    let n = if b@.num >= 0 {
        a@.num * b@.den
    } else {
        -(a@.num * b@.den)
    };
    let d = if b@.num >= 0 {
        a@.den * b@.num
    } else {
        a@.den * (-b@.num)
    };
    if d > 0 && norm_fits(n, d) {
        Some(norm_rat(n, d))
    } else {
        None
    }
}

/// Raw cross products of two well-formed rationals stay within `i128`.
proof fn lemma_raw_bounds(a: Rat, b: Rat)
    requires
        a.wf(),
        b.wf(),
    ensures
        -(RAT_LIMIT * RAT_LIMIT) <= a@.num * b@.den <= RAT_LIMIT * RAT_LIMIT,
        -(RAT_LIMIT * RAT_LIMIT) <= b@.num * a@.den <= RAT_LIMIT * RAT_LIMIT,
        -(RAT_LIMIT * RAT_LIMIT) <= a@.num * b@.num <= RAT_LIMIT * RAT_LIMIT,
        0 < a@.den * b@.den <= RAT_LIMIT * RAT_LIMIT,
        2 * (RAT_LIMIT * RAT_LIMIT) < i128::MAX,
{
    assert(-(RAT_LIMIT as int * RAT_LIMIT as int) <= a@.num * b@.den <= RAT_LIMIT as int
        * RAT_LIMIT as int) by (nonlinear_arith)
        requires
            -RAT_LIMIT <= a@.num <= RAT_LIMIT,
            0 < b@.den <= RAT_LIMIT,
    ;
    assert(-(RAT_LIMIT as int * RAT_LIMIT as int) <= b@.num * a@.den <= RAT_LIMIT as int
        * RAT_LIMIT as int) by (nonlinear_arith)
        requires
            -RAT_LIMIT <= b@.num <= RAT_LIMIT,
            0 < a@.den <= RAT_LIMIT,
    ;
    assert(-(RAT_LIMIT as int * RAT_LIMIT as int) <= a@.num * b@.num <= RAT_LIMIT as int
        * RAT_LIMIT as int) by (nonlinear_arith)
        requires
            -RAT_LIMIT <= a@.num <= RAT_LIMIT,
            -RAT_LIMIT <= b@.num <= RAT_LIMIT,
    ;
    assert(0 < a@.den * b@.den <= RAT_LIMIT as int * RAT_LIMIT as int) by (nonlinear_arith)
        requires
            0 < a@.den <= RAT_LIMIT,
            0 < b@.den <= RAT_LIMIT,
    ;
}

/// The rational with the exact representation num / den (meaningful for
/// in-range components).
pub closed spec fn rat_parts(num: int, den: int) -> Rat {
    Rat { num: num as i128, den: den as i128 }
}

/// The view of `rat_parts` for in-range components.
pub proof fn lemma_rat_parts_view(num: int, den: int)
    requires
        0 < den <= RAT_LIMIT,
        -RAT_LIMIT <= num <= RAT_LIMIT,
    ensures
        rat_parts(num, den)@ == (GRat { num, den }),
        rat_parts(num, den).wf(),
{
}

/// Two rationals with the same view are the same value.
pub proof fn lemma_rat_ext(a: Rat, b: Rat)
    requires
        a@ == b@,
    ensures
        a == b,
{
}

/// The product of two positive integers is positive.
pub proof fn lemma_mul_pos(a: int, b: int)
    requires
        a > 0,
        b > 0,
    ensures
        a * b > 0,
{
    assert(a * b > 0) by (nonlinear_arith)
        requires
            a > 0,
            b > 0,
    ;
}

/// Value equivalence is transitive across a well-formed middle term.
pub proof fn lemma_eqv_trans(a: GRat, b: GRat, c: GRat)
    requires
        g_wf(a),
        g_wf(b),
        g_wf(c),
        g_eqv(a, b),
        g_eqv(b, c),
    ensures
        g_eqv(a, c),
{
    assert(g_eqv(a, c)) by (nonlinear_arith)
        requires
            a.num * b.den == b.num * a.den,
            b.num * c.den == c.num * b.den,
            a.den > 0,
            b.den > 0,
            c.den > 0,
    ;
}

/// Sums of equivalent operands are equivalent.
pub proof fn lemma_eqv_add(a: GRat, b: GRat, x: GRat, y: GRat)
    requires
        g_wf(a),
        g_wf(b),
        g_wf(x),
        g_wf(y),
        g_eqv(a, x),
        g_eqv(b, y),
    ensures
        g_eqv(g_add(a, b), g_add(x, y)),
{
    assert((a.num * b.den) * (x.den * y.den) == (x.num * y.den) * (a.den * b.den))
        by (nonlinear_arith)
        requires
            a.num * x.den == x.num * a.den,
    ;
    assert((b.num * a.den) * (x.den * y.den) == (y.num * x.den) * (a.den * b.den))
        by (nonlinear_arith)
        requires
            b.num * y.den == y.num * b.den,
    ;
    assert((a.num * b.den + b.num * a.den) * (x.den * y.den) == (a.num * b.den) * (x.den
        * y.den) + (b.num * a.den) * (x.den * y.den)) by (nonlinear_arith);
    assert((x.num * y.den + y.num * x.den) * (a.den * b.den) == (x.num * y.den) * (a.den
        * b.den) + (y.num * x.den) * (a.den * b.den)) by (nonlinear_arith);
}

/// Differences of equivalent operands are equivalent.
pub proof fn lemma_eqv_sub(a: GRat, b: GRat, x: GRat, y: GRat)
    requires
        g_wf(a),
        g_wf(b),
        g_wf(x),
        g_wf(y),
        g_eqv(a, x),
        g_eqv(b, y),
    ensures
        g_eqv(g_sub(a, b), g_sub(x, y)),
{
    assert((a.num * b.den) * (x.den * y.den) == (x.num * y.den) * (a.den * b.den))
        by (nonlinear_arith)
        requires
            a.num * x.den == x.num * a.den,
    ;
    assert((b.num * a.den) * (x.den * y.den) == (y.num * x.den) * (a.den * b.den))
        by (nonlinear_arith)
        requires
            b.num * y.den == y.num * b.den,
    ;
    assert((a.num * b.den - b.num * a.den) * (x.den * y.den) == (a.num * b.den) * (x.den
        * y.den) - (b.num * a.den) * (x.den * y.den)) by (nonlinear_arith);
    assert((x.num * y.den - y.num * x.den) * (a.den * b.den) == (x.num * y.den) * (a.den
        * b.den) - (y.num * x.den) * (a.den * b.den)) by (nonlinear_arith);
}

/// Products of equivalent operands are equivalent.
pub proof fn lemma_eqv_mul(a: GRat, b: GRat, x: GRat, y: GRat)
    requires
        g_wf(a),
        g_wf(b),
        g_wf(x),
        g_wf(y),
        g_eqv(a, x),
        g_eqv(b, y),
    ensures
        g_eqv(g_mul(a, b), g_mul(x, y)),
{
    assert((a.num * b.num) * (x.den * y.den) == (x.num * y.num) * (a.den * b.den))
        by (nonlinear_arith)
        requires
            a.num * x.den == x.num * a.den,
            b.num * y.den == y.num * b.den,
            a.den > 0,
            b.den > 0,
            x.den > 0,
            y.den > 0,
    ;
}

} // verus!
