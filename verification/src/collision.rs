//! The collision of two particles: they are pushed apart along the line
//! through their centres and exchange momentum along it.

use vstd::prelude::*;
use vstd::arithmetic::div_mod::lemma_fundamental_div_mod;
use vstd::math::abs;
use crate::fixed::{div_floor, saturate, saturating, LIMIT};
use crate::particle::{lemma_radius_bounds, Particle};
use crate::vector::{Direction, Vec2, FINE};

verus! {

/// A velocity taken apart along the line through two centres and across it.
#[derive(Clone, Copy, Debug, PartialEq, Eq, Structural)]
pub struct Components {
    pub normal: i64,
    pub tangent: i64,
}

/// The velocity along the normal that a body of mass `mass` and velocity `v`
/// has after an elastic collision with a body of mass `other_mass` and
/// velocity `other_v`, rounded down.
pub open spec fn elastic_normal(mass: int, other_mass: int, v: int, other_v: int) -> int {
    (v * (mass - other_mass) + 2 * other_mass * other_v) / (mass + other_mass)
}

/// The momentum of two bodies along the normal.
pub open spec fn momentum(mass_a: int, mass_b: int, va: int, vb: int) -> int {
    mass_a * va + mass_b * vb
}

/// Twice the kinetic energy of two bodies along the normal.
pub open spec fn twice_energy(mass_a: int, mass_b: int, va: int, vb: int) -> int {
    mass_a * va * va + mass_b * vb * vb
}

/// The vector from the centre of `a` to the centre of `b`.
pub open spec fn normal_between(a: Particle, b: Particle) -> Vec2 {
    b.position.difference(a.position)
}

/// The distance of two particles as the collision test takes it: twice the
/// length of the vector between the centres.
pub open spec fn distance_between(a: Particle, b: Particle) -> int {
    2 * normal_between(a, b).norm()
}

/// Whether two particles collide: their centres differ, and their distance is
/// less than the sum of their radii.
pub open spec fn colliding(a: Particle, b: Particle) -> bool {
    &&& normal_between(a, b).norm() != 0
    &&& distance_between(a, b) < a.radius + b.radius
}

/// By how much the distance of two particles exceeds the sum of their radii;
/// negative where they collide.
pub open spec fn overlap_between(a: Particle, b: Particle) -> int {
    distance_between(a, b) - (a.radius + b.radius)
}

/// The part of `v` along the direction `d`, rounded down.
pub open spec fn part_along(v: Vec2, d: Direction) -> int {
    (v.x * d.x + v.y * d.y) / (FINE as int)
}

/// The step that moves `a` away from `b`: half the overlap along the
/// direction from `a` to `b`, each component rounded down.
pub open spec fn separation(a: Particle, b: Particle) -> Vec2 {
    let d = normal_between(a, b).direction();
    let overlap = overlap_between(a, b);
    Vec2 {
        x: saturate((d.x * overlap) / (2 * FINE)) as i64,
        y: saturate((d.y * overlap) / (2 * FINE)) as i64,
    }
}

/// The part of `v` along `unit_normal` and the part across it.
pub open spec fn components_of(v: Vec2, unit_normal: Direction) -> Components {
    Components {
        normal: part_along(v, unit_normal) as i64,
        tangent: part_along(v, unit_normal.perpendicular()) as i64,
    }
}

/// The velocity with the given parts along `unit_normal` and across it, each
/// component rounded down and saturated.
pub open spec fn recomposed(unit_normal: Direction, normal: int, tangent: int) -> Vec2 {
    let across = unit_normal.perpendicular();
    Vec2 {
        x: saturate((unit_normal.x * normal + across.x * tangent) / (FINE as int)) as i64,
        y: saturate((unit_normal.y * normal + across.y * tangent) / (FINE as int)) as i64,
    }
}

/// The components of two bodies after their elastic collision: the normal
/// parts are exchanged by the law of the elastic collision, the tangential
/// parts stay.
pub open spec fn exchanged(mass_a: int, mass_b: int, a: Components, b: Components) -> (
    Components,
    Components,
) {
    (
        Components {
            normal: elastic_normal(mass_a, mass_b, a.normal as int, b.normal as int) as i64,
            tangent: a.tangent,
        },
        Components {
            normal: elastic_normal(mass_b, mass_a, b.normal as int, a.normal as int) as i64,
            tangent: b.tangent,
        },
    )
}

/// The two particles after their collision was resolved; the particles
/// themselves where they do not collide.
pub open spec fn resolved(a: Particle, b: Particle) -> (Particle, Particle) {
    if !colliding(a, b) {
        (a, b)
    } else {
        let unit_normal = normal_between(a, b).direction();
        let dir = separation(a, b);
        let after = exchanged(
            a.mass as int,
            b.mass as int,
            components_of(a.velocity, unit_normal),
            components_of(b.velocity, unit_normal),
        );
        (
            Particle {
                position: a.position.sum(dir),
                velocity: recomposed(unit_normal, after.0.normal as int, after.0.tangent as int),
                ..a
            },
            Particle {
                position: b.position.difference(dir),
                velocity: recomposed(unit_normal, after.1.normal as int, after.1.tangent as int),
                ..b
            },
        )
    }
}

/// The velocity after an elastic collision is no larger than the body's own
/// velocity and twice the other's together.
pub(crate) proof fn lemma_elastic_normal_bound(mass: int, other_mass: int, v: int, other_v: int, bound: int)
    requires
        0 < mass,
        0 < other_mass,
        -bound <= v <= bound,
        -bound <= other_v <= bound,
    ensures
        -3 * bound <= elastic_normal(mass, other_mass, v, other_v) <= 3 * bound,
{
    let total = mass + other_mass;
    let n = v * (mass - other_mass) + 2 * other_mass * other_v;
    lemma_fundamental_div_mod(n, total);
    let q = n / total;
    let r = n % total;
    assert(-3 * bound * total <= n <= 3 * bound * total) by (nonlinear_arith)
        requires
            n == v * (mass - other_mass) + 2 * other_mass * other_v,
            total == mass + other_mass,
            0 < mass,
            0 < other_mass,
            -bound <= v <= bound,
            -bound <= other_v <= bound,
    ;
    assert(-3 * bound <= q <= 3 * bound) by (nonlinear_arith)
        requires
            -3 * bound * total <= n <= 3 * bound * total,
            n == total * q + r,
            0 <= r < total,
    ;
}

/// The numerators of the two velocities after an elastic collision, written
/// with the momentum: twice the momentum less the total mass times the
/// body's own velocity.
proof fn lemma_numerators(mass_a: int, mass_b: int, va: int, vb: int)
    ensures
        va * (mass_a - mass_b) + 2 * mass_b * vb == 2 * momentum(mass_a, mass_b, va, vb) - (mass_a
            + mass_b) * va,
        vb * (mass_b - mass_a) + 2 * mass_a * va == 2 * momentum(mass_a, mass_b, va, vb) - (mass_a
            + mass_b) * vb,
{
    assert(va * (mass_a - mass_b) + 2 * mass_b * vb == 2 * (mass_a * va + mass_b * vb) - (mass_a
        + mass_b) * va) by (nonlinear_arith);
    assert(vb * (mass_b - mass_a) + 2 * mass_a * va == 2 * (mass_a * va + mass_b * vb) - (mass_a
        + mass_b) * vb) by (nonlinear_arith);
}

/// An elastic collision keeps the momentum along the normal: rounding takes
/// away less than one unit of velocity for each unit of mass, and adds none.
pub proof fn lemma_momentum_conserved(mass_a: int, mass_b: int, va: int, vb: int)
    requires
        0 < mass_a,
        0 < mass_b,
    ensures
        ({
            let after_a = elastic_normal(mass_a, mass_b, va, vb);
            let after_b = elastic_normal(mass_b, mass_a, vb, va);
            let before = momentum(mass_a, mass_b, va, vb);
            let after = momentum(mass_a, mass_b, after_a, after_b);
            after <= before < after + mass_a + mass_b
        }),
{
    let total = mass_a + mass_b;
    let na = va * (mass_a - mass_b) + 2 * mass_b * vb;
    let nb = vb * (mass_b - mass_a) + 2 * mass_a * va;
    lemma_fundamental_div_mod(na, total);
    lemma_fundamental_div_mod(nb, total);
    let qa = na / total;
    let ra = na % total;
    let qb = nb / total;
    let rb = nb % total;
    let before = mass_a * va + mass_b * vb;
    let after = mass_a * qa + mass_b * qb;
    lemma_numerators(mass_a, mass_b, va, vb);
    assert(mass_a * na + mass_b * nb == total * before) by {
        let ap = mass_a * before;
        let bp = mass_b * before;
        let av = mass_a * va;
        let bv = mass_b * vb;
        assert(mass_a * (2 * before - total * va) == 2 * ap - total * av) by (nonlinear_arith)
            requires
                ap == mass_a * before,
                av == mass_a * va,
        ;
        assert(mass_b * (2 * before - total * vb) == 2 * bp - total * bv) by (nonlinear_arith)
            requires
                bp == mass_b * before,
                bv == mass_b * vb,
        ;
        assert(ap + bp == total * before) by (nonlinear_arith)
            requires
                ap == mass_a * before,
                bp == mass_b * before,
                total == mass_a + mass_b,
        ;
        assert(total * av + total * bv == total * before) by (nonlinear_arith)
            requires
                before == av + bv,
        ;
    }
    assert(total * (before - after) == mass_a * ra + mass_b * rb) by (nonlinear_arith)
        requires
            mass_a * na + mass_b * nb == total * before,
            na == total * qa + ra,
            nb == total * qb + rb,
            after == mass_a * qa + mass_b * qb,
    ;
    assert(0 <= before - after < total) by (nonlinear_arith)
        requires
            total * (before - after) == mass_a * ra + mass_b * rb,
            0 <= ra < total,
            0 <= rb < total,
            0 < mass_a,
            0 < mass_b,
            total == mass_a + mass_b,
    ;
}

/// An elastic collision reverses the velocity of one body against the
/// other: exactly, whatever the rounding.
pub proof fn lemma_relative_velocity_reversed(mass_a: int, mass_b: int, va: int, vb: int)
    requires
        0 < mass_a,
        0 < mass_b,
    ensures
        elastic_normal(mass_b, mass_a, vb, va) - elastic_normal(mass_a, mass_b, va, vb) == -(vb
            - va),
{
    let total = mass_a + mass_b;
    let na = va * (mass_a - mass_b) + 2 * mass_b * vb;
    let nb = vb * (mass_b - mass_a) + 2 * mass_a * va;
    lemma_fundamental_div_mod(na, total);
    let qa = na / total;
    let ra = na % total;
    let k = va - vb;
    assert(nb == (qa + k) * total + ra) by (nonlinear_arith)
        requires
            na == va * (mass_a - mass_b) + 2 * mass_b * vb,
            nb == vb * (mass_b - mass_a) + 2 * mass_a * va,
            total == mass_a + mass_b,
            k == va - vb,
            na == total * qa + ra,
    ;
    vstd::arithmetic::div_mod::lemma_fundamental_div_mod_converse(nb, total, qa + k, ra);
    assert(total == mass_b + mass_a);
}

/// The square of a sum.
proof fn lemma_square_of_sum(a: int, b: int)
    by (nonlinear_arith)
    ensures
        (a + b) * (a + b) == a * a + 2 * (a * b) + b * b,
{
}

/// A product with a sum of three terms.
proof fn lemma_distribute_over_three(m: int, x: int, y: int, z: int)
    by (nonlinear_arith)
    ensures
        m * (x + y + z) == m * x + m * y + m * z,
{
}

/// The square of `2 * p - total * v`, times `mass`, written out.
proof fn lemma_mass_times_square_of_numerator(mass: int, p: int, total: int, v: int)
    ensures
        mass * ((2 * p - total * v) * (2 * p - total * v)) == 4 * (mass * (p * p)) - 4 * (p * total)
            * (mass * v) + (total * total) * (mass * v * v),
{
    lemma_square_of_sum(2 * p, -(total * v));
    assert(2 * p - total * v == 2 * p + -(total * v));
    assert((2 * p - total * v) * (2 * p - total * v) == (2 * p + -(total * v)) * (2 * p + -(total
        * v)));
    lemma_distribute_over_three(
        mass,
        (2 * p) * (2 * p),
        2 * ((2 * p) * -(total * v)),
        -(total * v) * -(total * v),
    );
    assert(mass * ((2 * p) * (2 * p)) == 4 * (mass * (p * p))) by (nonlinear_arith);
    assert(mass * (2 * ((2 * p) * -(total * v))) == -(4 * (p * total) * (mass * v)))
        by (nonlinear_arith);
    assert(mass * (-(total * v) * -(total * v)) == (total * total) * (mass * v * v))
        by (nonlinear_arith);
}

/// The square of `total * q + r`, times `mass`, written out.
proof fn lemma_mass_times_square_of_quotient(mass: int, total: int, q: int, r: int)
    ensures
        mass * ((total * q + r) * (total * q + r)) == (total * total) * (mass * q * q) + 2 * total
            * (mass * q * r) + mass * (r * r),
{
    let a = total * q;
    lemma_square_of_sum(a, r);
    lemma_distribute_over_three(mass, a * a, 2 * (a * r), r * r);
    assert(mass * (a * a) == (total * total) * (mass * q * q)) by (nonlinear_arith)
        requires
            a == total * q,
    ;
    assert(mass * (2 * (a * r)) == 2 * total * (mass * q * r)) by (nonlinear_arith)
        requires
            a == total * q,
    ;
}

/// With exact division, an elastic collision keeps the kinetic energy: the
/// numerators of the two velocities carry the energy times the square of the
/// total mass.
proof fn lemma_energy_of_numerators(mass_a: int, mass_b: int, va: int, vb: int)
    ensures
        ({
            let total = mass_a + mass_b;
            let na = va * (mass_a - mass_b) + 2 * mass_b * vb;
            let nb = vb * (mass_b - mass_a) + 2 * mass_a * va;
            mass_a * (na * na) + mass_b * (nb * nb) == (total * total) * twice_energy(
                mass_a,
                mass_b,
                va,
                vb,
            )
        }),
{
    let total = mass_a + mass_b;
    let p = momentum(mass_a, mass_b, va, vb);
    let e = twice_energy(mass_a, mass_b, va, vb);
    let na = va * (mass_a - mass_b) + 2 * mass_b * vb;
    let nb = vb * (mass_b - mass_a) + 2 * mass_a * va;
    lemma_numerators(mass_a, mass_b, va, vb);
    lemma_mass_times_square_of_numerator(mass_a, p, total, va);
    lemma_mass_times_square_of_numerator(mass_b, p, total, vb);
    assert(na == 2 * p - total * va);
    assert(nb == 2 * p - total * vb);
    assert(na * na == (2 * p - total * va) * (2 * p - total * va));
    assert(nb * nb == (2 * p - total * vb) * (2 * p - total * vb));
    let pp = p * p;
    let pt = p * total;
    let tt = total * total;
    let av = mass_a * va;
    let bv = mass_b * vb;
    let avv = mass_a * va * va;
    let bvv = mass_b * vb * vb;
    assert(mass_a * pp + mass_b * pp == total * pp) by (nonlinear_arith)
        requires
            total == mass_a + mass_b,
    ;
    assert(pt * av + pt * bv == pt * p) by (nonlinear_arith)
        requires
            p == av + bv,
    ;
    assert(pt * p == total * pp) by (nonlinear_arith)
        requires
            pt == p * total,
            pp == p * p,
    ;
    assert(tt * avv + tt * bvv == tt * e) by (nonlinear_arith)
        requires
            e == avv + bvv,
    ;
    assert(mass_a * (na * na) == 4 * (mass_a * pp) - 4 * pt * av + tt * avv);
    assert(mass_b * (nb * nb) == 4 * (mass_b * pp) - 4 * pt * bv + tt * bvv);
    assert(4 * pt * av + 4 * pt * bv == 4 * (pt * p)) by (nonlinear_arith)
        requires
            pt * av + pt * bv == pt * p,
    ;
}

/// An elastic collision keeps the kinetic energy along the normal, up to
/// rounding: twice the energy changes by no more than twice the sum of the
/// magnitudes of the two momenta after the collision, and the total mass.
pub proof fn lemma_energy_conserved(mass_a: int, mass_b: int, va: int, vb: int)
    requires
        0 < mass_a,
        0 < mass_b,
    ensures
        ({
            let after_a = elastic_normal(mass_a, mass_b, va, vb);
            let after_b = elastic_normal(mass_b, mass_a, vb, va);
            let before = twice_energy(mass_a, mass_b, va, vb);
            let after = twice_energy(mass_a, mass_b, after_a, after_b);
            let slack = 2 * (mass_a * abs(after_a) + mass_b * abs(after_b));
            after - slack <= before < after + slack + mass_a + mass_b
        }),
{
    let total = mass_a + mass_b;
    let na = va * (mass_a - mass_b) + 2 * mass_b * vb;
    let nb = vb * (mass_b - mass_a) + 2 * mass_a * va;
    lemma_fundamental_div_mod(na, total);
    lemma_fundamental_div_mod(nb, total);
    let qa = na / total;
    let ra = na % total;
    let qb = nb / total;
    let rb = nb % total;
    let before = twice_energy(mass_a, mass_b, va, vb);
    let after = twice_energy(mass_a, mass_b, qa, qb);
    let tt = total * total;
    lemma_energy_of_numerators(mass_a, mass_b, va, vb);
    lemma_mass_times_square_of_quotient(mass_a, total, qa, ra);
    lemma_mass_times_square_of_quotient(mass_b, total, qb, rb);
    let aqq = mass_a * qa * qa;
    let bqq = mass_b * qb * qb;
    let aqr = mass_a * qa * ra;
    let bqr = mass_b * qb * rb;
    let arr = mass_a * (ra * ra);
    let brr = mass_b * (rb * rb);
    assert(tt * aqq + tt * bqq == tt * after) by (nonlinear_arith)
        requires
            after == aqq + bqq,
    ;
    // The square of the total mass, times the change of the energy.
    assert(tt * (before - after) == 2 * total * (aqr + bqr) + arr + brr) by (nonlinear_arith)
        requires
            mass_a * (na * na) + mass_b * (nb * nb) == tt * before,
            na == total * qa + ra,
            nb == total * qb + rb,
            mass_a * ((total * qa + ra) * (total * qa + ra)) == tt * aqq + 2 * total * aqr + arr,
            mass_b * ((total * qb + rb) * (total * qb + rb)) == tt * bqq + 2 * total * bqr + brr,
            tt * aqq + tt * bqq == tt * after,
    ;
    let xa = mass_a * abs(qa);
    let xb = mass_b * abs(qb);
    assert(-total * xa <= aqr <= total * xa) by (nonlinear_arith)
        requires
            aqr == mass_a * qa * ra,
            xa == mass_a * abs(qa),
            0 <= ra < total,
            0 < mass_a,
    ;
    assert(-total * xb <= bqr <= total * xb) by (nonlinear_arith)
        requires
            bqr == mass_b * qb * rb,
            xb == mass_b * abs(qb),
            0 <= rb < total,
            0 < mass_b,
    ;
    assert(0 <= arr < mass_a * tt) by (nonlinear_arith)
        requires
            arr == mass_a * (ra * ra),
            tt == total * total,
            0 <= ra < total,
            0 < mass_a,
    ;
    assert(0 <= brr < mass_b * tt) by (nonlinear_arith)
        requires
            brr == mass_b * (rb * rb),
            tt == total * total,
            0 <= rb < total,
            0 < mass_b,
    ;
    let slack = 2 * (xa + xb);
    assert(-slack <= before - after < slack + total) by (nonlinear_arith)
        requires
            tt * (before - after) == 2 * total * (aqr + bqr) + arr + brr,
            -total * xa <= aqr <= total * xa,
            -total * xb <= bqr <= total * xb,
            0 <= arr < mass_a * tt,
            0 <= brr < mass_b * tt,
            slack == 2 * (xa + xb),
            tt == total * total,
            total == mass_a + mass_b,
            0 < total,
    ;
}

/// The part of a vector with components up to `bound` along a direction, or
/// across it, is at most twice `bound`.
pub(crate) proof fn lemma_component_bound(v: Vec2, unit: Direction, bound: int)
    requires
        -bound <= v.x <= bound,
        -bound <= v.y <= bound,
        unit.wf(),
    ensures
        -2 * bound <= part_along(v, unit) <= 2 * bound,
        -2 * bound <= part_along(v, unit.perpendicular()) <= 2 * bound,
{
    let vx = v.x as int;
    let vy = v.y as int;
    let ux = unit.x as int;
    let uy = unit.y as int;
    assert(-bound * 1_000_000_000_000 <= vx * ux <= bound * 1_000_000_000_000 && -bound
        * 1_000_000_000_000 <= vy * uy <= bound * 1_000_000_000_000 && -bound * 1_000_000_000_000
        <= vx * (-uy) <= bound * 1_000_000_000_000 && -bound * 1_000_000_000_000 <= vy * ux
        <= bound * 1_000_000_000_000) by (nonlinear_arith)
        requires
            -bound <= vx <= bound,
            -bound <= vy <= bound,
            -1_000_000_000_000 <= ux <= 1_000_000_000_000,
            -1_000_000_000_000 <= uy <= 1_000_000_000_000,
    ;
}

/// The part of `v` along the direction `d`, rounded down.
fn along(v: Vec2, d: Direction) -> (r: i64)
    requires
        v.wf(),
        d.wf(),
    ensures
        r == part_along(v, d),
        -2 * LIMIT <= r <= 2 * LIMIT,
{
    let a: i128 = v.x as i128;
    let b: i128 = d.x as i128;
    let c: i128 = v.y as i128;
    let e: i128 = d.y as i128;
    assert(-LIMIT * FINE <= a * b <= LIMIT * FINE && -LIMIT * FINE <= c * e <= LIMIT * FINE)
        by (nonlinear_arith)
        requires
            -LIMIT <= a <= LIMIT,
            -LIMIT <= c <= LIMIT,
            -FINE <= b <= FINE,
            -FINE <= e <= FINE,
    ;
    let q: i128 = div_floor(a * b + c * e, FINE as i128);
    q as i64
}

/// One component of a velocity put together from its parts.
fn together(ux: i64, n: i64, vx: i64, t: i64) -> (r: i64)
    requires
        -FINE <= ux <= FINE,
        -FINE <= vx <= FINE,
    ensures
        r == saturate((ux * n + vx * t) / (FINE as int)),
{
    let a: i128 = ux as i128;
    let b: i128 = n as i128;
    let c: i128 = vx as i128;
    let e: i128 = t as i128;
    assert(-0x1000_0000_0000_0000_0000_0000_0000 <= a * b <= 0x1000_0000_0000_0000_0000_0000_0000
        && -0x1000_0000_0000_0000_0000_0000_0000 <= c * e <= 0x1000_0000_0000_0000_0000_0000_0000)
        by (nonlinear_arith)
        requires
            -0x100_0000_0000 <= a <= 0x100_0000_0000,
            -0x100_0000_0000 <= c <= 0x100_0000_0000,
            -0x8000_0000_0000_0000 <= b <= 0x8000_0000_0000_0000,
            -0x8000_0000_0000_0000 <= e <= 0x8000_0000_0000_0000,
    ;
    saturating(div_floor(a * b + c * e, FINE as i128))
}

/// The part of `v` along `unit_normal` and the part across it.
pub fn decompose(v: Vec2, unit_normal: Direction) -> (c: Components)
    requires
        v.wf(),
        unit_normal.wf(),
    ensures
        c == components_of(v, unit_normal),
        -2 * LIMIT <= c.normal <= 2 * LIMIT,
        -2 * LIMIT <= c.tangent <= 2 * LIMIT,
{
    Components { normal: along(v, unit_normal), tangent: along(v, unit_normal.perp()) }
}

/// The velocity with the given parts along `unit_normal` and across it.
pub fn recompose(unit_normal: Direction, c: Components) -> (v: Vec2)
    requires
        unit_normal.wf(),
    ensures
        v == recomposed(unit_normal, c.normal as int, c.tangent as int),
        v.wf(),
{
    let across = unit_normal.perp();
    Vec2 {
        x: together(unit_normal.x, c.normal, across.x, c.tangent),
        y: together(unit_normal.y, c.normal, across.y, c.tangent),
    }
}

/// One normal velocity after an elastic collision.
fn elastic(mass: i64, other_mass: i64, v: i64, other_v: i64) -> (r: i64)
    requires
        0 < mass,
        0 < other_mass,
        -2 * LIMIT <= v <= 2 * LIMIT,
        -2 * LIMIT <= other_v <= 2 * LIMIT,
    ensures
        r == elastic_normal(mass as int, other_mass as int, v as int, other_v as int),
        -6 * LIMIT <= r <= 6 * LIMIT,
{
    let m: i128 = mass as i128;
    let o: i128 = other_mass as i128;
    let a: i128 = v as i128;
    let b: i128 = other_v as i128;
    assert(-0x2000_0000_0000_0000_0000_0000_0000 <= a * (m - o)
        <= 0x2000_0000_0000_0000_0000_0000_0000 && -0x2000_0000_0000_0000_0000_0000_0000 <= 2
        * o * b <= 0x2000_0000_0000_0000_0000_0000_0000) by (nonlinear_arith)
        requires
            0 < m <= 0x8000_0000_0000_0000,
            0 < o <= 0x8000_0000_0000_0000,
            -0x400_0000_0000 <= a <= 0x400_0000_0000,
            -0x400_0000_0000 <= b <= 0x400_0000_0000,
    ;
    proof {
        lemma_elastic_normal_bound(m as int, o as int, a as int, b as int, 2 * LIMIT);
    }
    let two_o: i128 = 2 * o;
    let q: i128 = div_floor(a * (m - o) + two_o * b, m + o);
    q as i64
}

/// The components of two bodies after their elastic collision: the normal
/// parts are exchanged by the law of the elastic collision, the tangential
/// parts stay as they are.
pub fn exchange(mass_a: i64, mass_b: i64, a: Components, b: Components) -> (r: (
    Components,
    Components,
))
    requires
        0 < mass_a,
        0 < mass_b,
        -2 * LIMIT <= a.normal <= 2 * LIMIT,
        -2 * LIMIT <= b.normal <= 2 * LIMIT,
    ensures
        r == exchanged(mass_a as int, mass_b as int, a, b),
        r.0.tangent == a.tangent,
        r.1.tangent == b.tangent,
{
    (
        Components { normal: elastic(mass_a, mass_b, a.normal, b.normal), tangent: a.tangent },
        Components { normal: elastic(mass_b, mass_a, b.normal, a.normal), tangent: b.tangent },
    )
}

/// Resolves the collision of two particles: where they collide, each is moved
/// by half the overlap away from the other, and their velocities along the
/// normal are exchanged. Where they do not, they are returned as they are.
pub fn resolve(a: Particle, b: Particle) -> (r: (Particle, Particle))
    requires
        a.wf(),
        b.wf(),
    ensures
        r == resolved(a, b),
        r.0.wf(),
        r.1.wf(),
{
    let normal = b.position.sub(a.position);
    let unit_normal = normal.direction_of();
    let length: i64 = normal.length();
    let distance: i64 = 2 * length;
    proof {
        lemma_radius_bounds(a.mass as int);
        lemma_radius_bounds(b.mass as int);
    }
    if length != 0 && distance < a.radius + b.radius {
        let overlap: i64 = distance - (a.radius + b.radius);
        let dir = Vec2 { x: push(unit_normal.x, overlap), y: push(unit_normal.y, overlap) };
        let after = exchange(
            a.mass,
            b.mass,
            decompose(a.velocity, unit_normal),
            decompose(b.velocity, unit_normal),
        );
        let mut first = a;
        let mut second = b;
        first.position = a.position.add(dir);
        second.position = b.position.sub(dir);
        first.velocity = recompose(unit_normal, after.0);
        second.velocity = recompose(unit_normal, after.1);
        (first, second)
    } else {
        (a, b)
    }
}

/// One component of the step out of a collision: half the overlap along one
/// component of the direction.
fn push(u: i64, overlap: i64) -> (r: i64)
    requires
        -FINE <= u <= FINE,
    ensures
        r == saturate((u * overlap) / (2 * FINE)),
{
    let a: i128 = u as i128;
    let b: i128 = overlap as i128;
    assert(-0x1000_0000_0000_0000_0000_0000_0000 <= a * b <= 0x1000_0000_0000_0000_0000_0000_0000)
        by (nonlinear_arith)
        requires
            -0x100_0000_0000 <= a <= 0x100_0000_0000,
            -0x8000_0000_0000_0000 <= b <= 0x8000_0000_0000_0000,
    ;
    saturating(div_floor(a * b, 2 * (FINE as i128)))
}

} // verus!
