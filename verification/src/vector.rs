//! Two-dimensional vectors of fixed-point scalars, and their directions.

use vstd::prelude::*;
use vstd::arithmetic::div_mod::lemma_fundamental_div_mod;
use crate::fixed::{
    div_floor, isqrt, lemma_sqrt_floor_exists, lemma_sqrt_floor_monotonic,
    lemma_sqrt_floor_unique, mul_fixed, saturate, saturating, sqrt_floor, within_limit, LIMIT, ONE,
};

verus! {

/// A vector with fixed-point components.
#[derive(Clone, Copy, Debug, PartialEq, Eq, Structural)]
pub struct Vec2 {
    pub x: i64,
    pub y: i64,
}

/// The scale of a direction: a component `x` of a direction stands for the
/// real number `x / FINE`.
pub const FINE: i64 = 1_000_000_000_000;

/// A vector of length one, with components in units of `1 / FINE`; or the
/// zero vector, for the direction of the zero vector.
#[derive(Clone, Copy, Debug, PartialEq, Eq, Structural)]
pub struct Direction {
    pub x: i64,
    pub y: i64,
}

impl Direction {
    /// No component exceeds `FINE` in magnitude.
    pub open spec fn wf(self) -> bool {
        -FINE <= self.x <= FINE && -FINE <= self.y <= FINE
    }

    /// The squared length, in units of `1 / (FINE * FINE)`.
    pub open spec fn norm_squared(self) -> int {
        self.x * self.x + self.y * self.y
    }

    /// The direction turned by a quarter turn counter-clockwise.
    pub open spec fn perpendicular(self) -> Direction {
        Direction { x: (-self.y) as i64, y: self.x }
    }

    /// The direction turned by a quarter turn counter-clockwise.
    pub fn perp(self) -> (r: Direction)
        requires
            self.wf(),
        ensures
            r == self.perpendicular(),
            r.wf(),
    {
        Direction { x: -self.y, y: self.x }
    }
}

/// `(x * FINE) / len` stays between `-FINE` and `FINE` when `x` is no longer than `len`.
pub(crate) proof fn lemma_fine_quotient_of_shorter(x: int, len: int)
    requires
        0 < len,
        -len <= x <= len,
    ensures
        -FINE <= (x * FINE) / len <= FINE,
{
    let q = (x * FINE) / len;
    let r = (x * FINE) % len;
    lemma_fundamental_div_mod(x * FINE, len);
    assert(-1_000_000_000_000 <= q <= 1_000_000_000_000) by (nonlinear_arith)
        requires
            0 < len,
            -len <= x <= len,
            x * 1_000_000_000_000 == len * q + r,
            0 <= r < len,
    ;
}

/// The squared length of a direction: each component is `(e * FINE) / g`
/// rounded down, where `g` is the length of `(ex, ey)` rounded down and at
/// least `FINE`.
pub(crate) proof fn lemma_direction_length(ex: int, ey: int, g: int)
    requires
        FINE <= g,
        -g <= ex <= g,
        -g <= ey <= g,
        g * g <= ex * ex + ey * ey < (g + 1) * (g + 1),
    ensures
        ({
            let dx = (ex * FINE) / g;
            let dy = (ey * FINE) / g;
            let q = dx * dx + dy * dy;
            FINE * FINE - 4 * FINE <= q <= FINE * FINE + 6 * FINE + 2
        }),
{
    let dx = (ex * FINE) / g;
    let dy = (ey * FINE) / g;
    let q = dx * dx + dy * dy;
    lemma_fundamental_div_mod(ex * FINE, g);
    lemma_fundamental_div_mod(ey * FINE, g);
    let rx = (ex * FINE) % g;
    let ry = (ey * FINE) % g;
    let ax = g * dx;
    let ay = g * dy;
    let gg = g * g;
    let e2 = ex * ex + ey * ey;
    let xr = ex * rx;
    let yr = ey * ry;
    let rr = rx * rx + ry * ry;
    assert(ax == 1_000_000_000_000 * ex - rx);
    assert(ay == 1_000_000_000_000 * ey - ry);
    assert(ax * ax + ay * ay == 1_000_000_000_000_000_000_000_000 * e2 - 2_000_000_000_000 * (xr
        + yr) + rr) by (nonlinear_arith)
        requires
            ax == 1_000_000_000_000 * ex - rx,
            ay == 1_000_000_000_000 * ey - ry,
            e2 == ex * ex + ey * ey,
            xr == ex * rx,
            yr == ey * ry,
            rr == rx * rx + ry * ry,
    ;
    let qgg = q * gg;
    assert(ax * ax + ay * ay == qgg) by (nonlinear_arith)
        requires
            ax == g * dx,
            ay == g * dy,
            gg == g * g,
            q == dx * dx + dy * dy,
            qgg == q * gg,
    ;
    assert(-gg <= xr <= gg && -gg <= yr <= gg && 0 <= rr <= 2 * gg) by (nonlinear_arith)
        requires
            xr == ex * rx,
            yr == ey * ry,
            rr == rx * rx + ry * ry,
            gg == g * g,
            -g <= ex <= g,
            -g <= ey <= g,
            0 <= rx < g,
            0 <= ry < g,
    ;
    assert(gg <= e2 <= gg + 2 * g) by (nonlinear_arith)
        requires
            gg == g * g,
            g * g <= e2 < (g + 1) * (g + 1),
    ;
    assert(1_000_000_000_000 * g <= gg) by (nonlinear_arith)
        requires
            gg == g * g,
            1_000_000_000_000 <= g,
    ;
    assert(999_999_999_996_000_000_000_000 * gg <= qgg);
    assert(qgg <= 1_000_000_000_006_000_000_000_002 * gg);
    assert(999_999_999_996_000_000_000_000 <= q <= 1_000_000_000_006_000_000_000_002)
        by (nonlinear_arith)
        requires
            999_999_999_996_000_000_000_000 * gg <= qgg,
            qgg <= 1_000_000_000_006_000_000_000_002 * gg,
            qgg == q * gg,
            0 < gg,
    ;
    assert(FINE * FINE == 1_000_000_000_000_000_000_000_000) by (nonlinear_arith);
}

impl Vec2 {
    /// Both components lie between `-LIMIT` and `LIMIT`.
    pub open spec fn wf(self) -> bool {
        within_limit(self.x as int) && within_limit(self.y as int)
    }

    /// The vector with both components zero.
    pub open spec fn origin() -> Vec2 {
        Vec2 { x: 0, y: 0 }
    }

    /// The component-wise sum, each component saturated.
    pub open spec fn sum(self, rhs: Vec2) -> Vec2 {
        Vec2 { x: saturate(self.x + rhs.x) as i64, y: saturate(self.y + rhs.y) as i64 }
    }

    /// The component-wise difference, each component saturated.
    pub open spec fn difference(self, rhs: Vec2) -> Vec2 {
        Vec2 { x: saturate(self.x - rhs.x) as i64, y: saturate(self.y - rhs.y) as i64 }
    }

    /// Each component multiplied by the scalar `k`, rounded down and saturated.
    pub open spec fn scaled(self, k: int) -> Vec2 {
        Vec2 {
            x: saturate(mul_fixed(self.x as int, k)) as i64,
            y: saturate(mul_fixed(self.y as int, k)) as i64,
        }
    }

    /// The scalar product, rounded down.
    pub open spec fn dot_product(self, rhs: Vec2) -> int {
        (self.x * rhs.x + self.y * rhs.y) / (ONE as int)
    }

    /// The squared Euclidean length, as an integer of raw units.
    pub open spec fn norm_squared(self) -> int {
        self.x * self.x + self.y * self.y
    }

    /// The Euclidean length, rounded down.
    pub open spec fn norm(self) -> int {
        sqrt_floor(self.norm_squared())
    }

    /// The factor by which the components are multiplied before the direction
    /// is taken: a vector shorter than one unit is lengthened first, so that
    /// the rounding of its length does not turn or lengthen the direction.
    pub open spec fn fine_scale(self) -> int {
        if -ONE < self.x < ONE && -ONE < self.y < ONE {
            1_000_000_000_000
        } else {
            1_000_000
        }
    }

    /// The horizontal component, multiplied by `fine_scale`.
    pub open spec fn fine_x(self) -> int {
        self.x * self.fine_scale()
    }

    /// The vertical component, multiplied by `fine_scale`.
    pub open spec fn fine_y(self) -> int {
        self.y * self.fine_scale()
    }

    /// The length of the vector with the components `fine_x` and `fine_y`,
    /// rounded down.
    pub open spec fn fine_norm(self) -> int {
        sqrt_floor(self.fine_x() * self.fine_x() + self.fine_y() * self.fine_y())
    }

    /// The direction of the vector: each component divided by the length, in
    /// units of `1 / FINE`, rounded down; of the zero vector, the zero vector.
    pub open spec fn direction(self) -> Direction {
        if self.x == 0 && self.y == 0 {
            Direction { x: 0, y: 0 }
        } else {
            Direction {
                x: ((self.fine_x() * FINE) / self.fine_norm()) as i64,
                y: ((self.fine_y() * FINE) / self.fine_norm()) as i64,
            }
        }
    }

    /// The vector of length one in the same direction: the direction with
    /// each component rounded down to a scalar; of the zero vector, the zero
    /// vector.
    pub open spec fn unit(self) -> Vec2 {
        Vec2 {
            x: (self.direction().x as int / ONE as int) as i64,
            y: (self.direction().y as int / ONE as int) as i64,
        }
    }

    /// The vector turned by a quarter turn counter-clockwise.
    pub open spec fn perpendicular(self) -> Vec2 {
        Vec2 { x: (-self.y) as i64, y: self.x }
    }

    /// The length is zero for the zero vector only, no component is longer than
    /// the vector, and the vector is no longer than its components together.
    pub proof fn lemma_norm_bounds(self)
        ensures
            0 <= self.norm(),
            self.norm() * self.norm() <= self.norm_squared(),
            self.norm_squared() < (self.norm() + 1) * (self.norm() + 1),
            -self.norm() <= self.x <= self.norm(),
            -self.norm() <= self.y <= self.norm(),
            self.norm() == 0 <==> self == Vec2::origin(),
            self.wf() ==> self.norm() <= 2 * LIMIT,
    {
        let x = self.x as int;
        let y = self.y as int;
        let n = self.norm_squared();
        assert(0 <= n) by (nonlinear_arith)
            requires
                n == x * x + y * y,
        ;
        lemma_sqrt_floor_exists(n);
        let r = self.norm();
        assert(-r <= x <= r && -r <= y <= r) by (nonlinear_arith)
            requires
                0 <= r,
                x * x + y * y < (r + 1) * (r + 1),
        ;
        assert(r == 0 ==> x == 0 && y == 0);
        assert(x == 0 && y == 0 ==> r == 0) by (nonlinear_arith)
            requires
                0 <= r,
                r * r <= x * x + y * y,
        ;
        if self.wf() {
            assert(r <= 2 * LIMIT) by (nonlinear_arith)
                requires
                    0 <= r,
                    r * r <= x * x + y * y,
                    -LIMIT <= x <= LIMIT,
                    -LIMIT <= y <= LIMIT,
            ;
        }
    }

    /// The length of the lengthened vector: that of a vector other than the
    /// zero vector is at least `FINE`, and no component is longer than it.
    pub proof fn lemma_fine_norm_bounds(self)
        requires
            self != Vec2::origin(),
        ensures
            FINE <= self.fine_norm(),
            self.fine_norm() * self.fine_norm() <= self.fine_x() * self.fine_x() + self.fine_y()
                * self.fine_y() < (self.fine_norm() + 1) * (self.fine_norm() + 1),
            -self.fine_norm() <= self.fine_x() <= self.fine_norm(),
            -self.fine_norm() <= self.fine_y() <= self.fine_norm(),
            self.wf() ==> self.fine_norm() <= 2 * (LIMIT * ONE),
    {
        let ex = self.fine_x();
        let ey = self.fine_y();
        let e2 = ex * ex + ey * ey;
        if -ONE < self.x < ONE && -ONE < self.y < ONE {
            assert(self.fine_scale() == 1_000_000_000_000);
            assert(ex == self.x * 1_000_000_000_000);
            assert(ey == self.y * 1_000_000_000_000);
            assert(self.x != 0 || self.y != 0);
        } else {
            assert(self.fine_scale() == 1_000_000);
            assert(ex == self.x * 1_000_000);
            assert(ey == self.y * 1_000_000);
        }
        assert(ex <= -1_000_000_000_000 || ex >= 1_000_000_000_000 || ey <= -1_000_000_000_000
            || ey >= 1_000_000_000_000);
        assert(self.wf() ==> -1_000_000_000_000_000_000 <= ex <= 1_000_000_000_000_000_000
            && -1_000_000_000_000_000_000 <= ey <= 1_000_000_000_000_000_000);
        assert(1_000_000_000_000_000_000_000_000 <= e2) by (nonlinear_arith)
            requires
                e2 == ex * ex + ey * ey,
                ex <= -1_000_000_000_000 || ex >= 1_000_000_000_000 || ey <= -1_000_000_000_000
                    || ey >= 1_000_000_000_000,
        ;
        assert(1_000_000_000_000 * 1_000_000_000_000 == 1_000_000_000_000_000_000_000_000int)
            by (nonlinear_arith);
        assert(1_000_000_000_001 * 1_000_000_000_001 == 1_000_000_000_002_000_000_000_001int)
            by (nonlinear_arith);
        lemma_sqrt_floor_unique(1_000_000_000_000_000_000_000_000int, 1_000_000_000_000);
        lemma_sqrt_floor_monotonic(1_000_000_000_000_000_000_000_000int, e2);
        lemma_sqrt_floor_exists(e2);
        let g = self.fine_norm();
        assert(-g <= ex <= g && -g <= ey <= g) by (nonlinear_arith)
            requires
                0 <= g,
                ex * ex + ey * ey < (g + 1) * (g + 1),
        ;
        if self.wf() {
            assert(-1_000_000_000_000_000_000 <= ex <= 1_000_000_000_000_000_000);
            assert(-1_000_000_000_000_000_000 <= ey <= 1_000_000_000_000_000_000);
            assert(g <= 2_000_000_000_000_000_000) by (nonlinear_arith)
                requires
                    0 <= g,
                    g * g <= ex * ex + ey * ey,
                    -1_000_000_000_000_000_000 <= ex <= 1_000_000_000_000_000_000,
                    -1_000_000_000_000_000_000 <= ey <= 1_000_000_000_000_000_000,
            ;
        }
    }

    /// No component of a direction exceeds `FINE` in magnitude, and its
    /// squared length is that of one, up to rounding: six parts in `FINE`.
    pub proof fn lemma_direction_bounds(self)
        ensures
            self.direction().wf(),
            self.direction().perpendicular().wf(),
            self == Vec2::origin() ==> self.direction() == (Direction { x: 0, y: 0 }),
            self != Vec2::origin() ==> {
                &&& self.direction().x == (self.fine_x() * FINE) / self.fine_norm()
                &&& self.direction().y == (self.fine_y() * FINE) / self.fine_norm()
                &&& FINE * FINE - 4 * FINE <= self.direction().norm_squared() <= FINE * FINE + 6
                    * FINE + 2
            },
    {
        if self != Vec2::origin() {
            self.lemma_fine_norm_bounds();
            lemma_fine_quotient_of_shorter(self.fine_x(), self.fine_norm());
            lemma_fine_quotient_of_shorter(self.fine_y(), self.fine_norm());
            lemma_direction_length(self.fine_x(), self.fine_y(), self.fine_norm());
        }
    }

    /// The squared length of the unit vector of a vector other than the zero
    /// vector is that of one, up to rounding: four parts in `ONE`.
    pub proof fn lemma_unit_length(self)
        requires
            self != Vec2::origin(),
        ensures
            ONE * ONE - 4 * ONE - 6 <= self.unit().norm_squared() <= ONE * ONE + 4 * ONE + 6,
    {
        self.lemma_direction_bounds();
        let d = self.direction();
        let u = self.unit();
        let dx = d.x as int;
        let dy = d.y as int;
        let ux = u.x as int;
        let uy = u.y as int;
        lemma_fundamental_div_mod(dx, ONE as int);
        lemma_fundamental_div_mod(dy, ONE as int);
        let rx = dx % (ONE as int);
        let ry = dy % (ONE as int);
        let qd = dx * dx + dy * dy;
        let qu = ux * ux + uy * uy;
        let ur = ux * rx + uy * ry;
        let rr = rx * rx + ry * ry;
        assert(qd == 1_000_000_000_000 * qu + 2_000_000 * ur + rr) by (nonlinear_arith)
            requires
                dx == 1_000_000 * ux + rx,
                dy == 1_000_000 * uy + ry,
                qd == dx * dx + dy * dy,
                qu == ux * ux + uy * uy,
                ur == ux * rx + uy * ry,
                rr == rx * rx + ry * ry,
        ;
        assert(-2_000_000_000_000 <= ur <= 2_000_000_000_000 && 0 <= rr < 2_000_000_000_000)
            by (nonlinear_arith)
            requires
                ur == ux * rx + uy * ry,
                rr == rx * rx + ry * ry,
                -1_000_000 <= ux <= 1_000_000,
                -1_000_000 <= uy <= 1_000_000,
                0 <= rx < 1_000_000,
                0 <= ry < 1_000_000,
        ;
        assert(FINE * FINE == 1_000_000_000_000_000_000_000_000) by (nonlinear_arith);
        assert(ONE * ONE == 1_000_000_000_000) by (nonlinear_arith);
    }

    /// No component of a unit vector exceeds `ONE` in magnitude.
    pub proof fn lemma_unit_bounds(self)
        ensures
            -ONE <= self.unit().x <= ONE,
            -ONE <= self.unit().y <= ONE,
            self.unit().wf(),
            self.unit().perpendicular().wf(),
            self == Vec2::origin() ==> self.unit() == Vec2::origin(),
    {
        self.lemma_direction_bounds();
    }

    /// The vector with the given components, each saturated.
    pub fn new(x: i64, y: i64) -> (r: Vec2)
        ensures
            r.x == saturate(x as int),
            r.y == saturate(y as int),
            r.wf(),
    {
        Vec2 { x: saturating(x as i128), y: saturating(y as i128) }
    }

    /// The vector with both components zero.
    pub fn zero() -> (r: Vec2)
        ensures
            r == Vec2::origin(),
            r.wf(),
    {
        Vec2 { x: 0, y: 0 }
    }

    /// The component-wise sum, each component saturated.
    pub fn add(self, rhs: Vec2) -> (r: Vec2)
        ensures
            r == self.sum(rhs),
            r.wf(),
    {
        Vec2 {
            x: saturating(self.x as i128 + rhs.x as i128),
            y: saturating(self.y as i128 + rhs.y as i128),
        }
    }

    /// The component-wise difference, each component saturated.
    pub fn sub(self, rhs: Vec2) -> (r: Vec2)
        ensures
            r == self.difference(rhs),
            r.wf(),
    {
        Vec2 {
            x: saturating(self.x as i128 - rhs.x as i128),
            y: saturating(self.y as i128 - rhs.y as i128),
        }
    }

    /// Each component multiplied by the scalar `k`, rounded down and saturated.
    pub fn scale(self, k: i64) -> (r: Vec2)
        ensures
            r == self.scaled(k as int),
            r.wf(),
    {
        Vec2 { x: scale_component(self.x, k), y: scale_component(self.y, k) }
    }

    /// The scalar product, rounded down.
    pub fn dot(self, rhs: Vec2) -> (r: i64)
        requires
            self.wf(),
            rhs.wf(),
        ensures
            r == self.dot_product(rhs),
            -2 * LIMIT * LIMIT <= r * ONE <= 2 * LIMIT * LIMIT,
    {
        let a: i128 = self.x as i128;
        let b: i128 = rhs.x as i128;
        let c: i128 = self.y as i128;
        let d: i128 = rhs.y as i128;
        assert(-LIMIT * LIMIT <= a * b <= LIMIT * LIMIT && -LIMIT * LIMIT <= c * d <= LIMIT
            * LIMIT) by (nonlinear_arith)
            requires
                -LIMIT <= a <= LIMIT,
                -LIMIT <= b <= LIMIT,
                -LIMIT <= c <= LIMIT,
                -LIMIT <= d <= LIMIT,
        ;
        let q: i128 = div_floor(a * b + c * d, ONE as i128);
        q as i64
    }

    /// The Euclidean length, rounded down.
    pub fn length(self) -> (r: i64)
        requires
            self.wf(),
        ensures
            r == self.norm(),
            0 <= r <= 2 * LIMIT,
    {
        let a: i128 = self.x as i128;
        let b: i128 = self.y as i128;
        assert(0 <= a * a <= LIMIT * LIMIT && 0 <= b * b <= LIMIT * LIMIT) by (nonlinear_arith)
            requires
                -LIMIT <= a <= LIMIT,
                -LIMIT <= b <= LIMIT,
        ;
        proof {
            self.lemma_norm_bounds();
        }
        let n: u128 = (a * a + b * b) as u128;
        isqrt(n) as i64
    }

    /// The direction of the vector: each component divided by the length, in
    /// units of `1 / FINE`, rounded down; of the zero vector, the zero vector.
    pub fn direction_of(self) -> (r: Direction)
        requires
            self.wf(),
        ensures
            r == self.direction(),
            r.wf(),
    {
        proof {
            self.lemma_direction_bounds();
        }
        if self.x == 0 && self.y == 0 {
            Direction { x: 0, y: 0 }
        } else {
            proof {
                self.lemma_fine_norm_bounds();
            }
            let k: i128 = if -ONE < self.x && self.x < ONE && -ONE < self.y && self.y < ONE {
                1_000_000_000_000
            } else {
                1_000_000
            };
            let ex: i128 = self.x as i128 * k;
            let ey: i128 = self.y as i128 * k;
            assert(0 <= ex * ex <= 1_000_000_000_000_000_000_000_000_000_000_000_000 && 0 <= ey * ey
                <= 1_000_000_000_000_000_000_000_000_000_000_000_000) by (nonlinear_arith)
                requires
                    -1_000_000_000_000_000_000 <= ex <= 1_000_000_000_000_000_000,
                    -1_000_000_000_000_000_000 <= ey <= 1_000_000_000_000_000_000,
            ;
            let g: u64 = isqrt((ex * ex + ey * ey) as u128);
            let x: i128 = div_floor(ex * (FINE as i128), g as i128);
            let y: i128 = div_floor(ey * (FINE as i128), g as i128);
            Direction { x: x as i64, y: y as i64 }
        }
    }

    /// The vector of length one in the same direction: the direction with
    /// each component rounded down to a scalar; of the zero vector, the zero
    /// vector.
    pub fn normalize(self) -> (r: Vec2)
        requires
            self.wf(),
        ensures
            r == self.unit(),
            r.wf(),
    {
        let d = self.direction_of();
        proof {
            self.lemma_unit_bounds();
        }
        Vec2 {
            x: div_floor(d.x as i128, ONE as i128) as i64,
            y: div_floor(d.y as i128, ONE as i128) as i64,
        }
    }

    /// The vector turned by a quarter turn counter-clockwise.
    pub fn perp(self) -> (r: Vec2)
        requires
            self.wf(),
        ensures
            r == self.perpendicular(),
            r.wf(),
    {
        Vec2 { x: -self.y, y: self.x }
    }
}

/// One component multiplied by the scalar `k`, rounded down and saturated.
fn scale_component(x: i64, k: i64) -> (r: i64)
    ensures
        r == saturate(mul_fixed(x as int, k as int)),
{
    let a: i128 = x as i128;
    let b: i128 = k as i128;
    assert(-0x4000_0000_0000_0000_0000_0000_0000_0000 <= a * b
        <= 0x4000_0000_0000_0000_0000_0000_0000_0000) by (nonlinear_arith)
        requires
            -0x8000_0000_0000_0000 <= a <= 0x8000_0000_0000_0000,
            -0x8000_0000_0000_0000 <= b <= 0x8000_0000_0000_0000,
    ;
    saturating(div_floor(a * b, ONE as i128))
}

} // verus!
