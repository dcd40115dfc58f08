//! The velocities after a collision, taken apart again along the normal of the
//! collision: what the parts along and across it are, up to rounding.

use vstd::prelude::*;
use vstd::arithmetic::div_mod::lemma_fundamental_div_mod;
use vstd::math::abs;
use crate::collision::{
    colliding, components_of, elastic_normal, lemma_component_bound, lemma_elastic_normal_bound,
    lemma_energy_conserved, lemma_momentum_conserved, lemma_relative_velocity_reversed, momentum,
    normal_between, part_along, recomposed, resolved, twice_energy,
};
use crate::fixed::LIMIT;
use crate::particle::Particle;
use crate::vector::{Direction, FINE};

verus! {

/// The largest speed along an axis for which the laws of this file are
/// stated: no velocity after a collision is then cut off at `LIMIT`.
pub const SPEED_LIMIT: i64 = 31_250_000_000;

/// Both components of the velocity are at most `SPEED_LIMIT` in magnitude.
pub open spec fn within_speed_limit(p: Particle) -> bool {
    &&& -SPEED_LIMIT <= p.velocity.x <= SPEED_LIMIT
    &&& -SPEED_LIMIT <= p.velocity.y <= SPEED_LIMIT
}

/// A velocity put together from a part `n` along the direction `(ux, uy)`
/// and a part `t` along `(vy, ux)` across it, and taken apart again: each
/// part comes back multiplied by the squared length of the direction, up to
/// three units of rounding.
proof fn lemma_taken_apart_again(ux: int, uy: int, vy: int, n: int, t: int)
    requires
        -FINE <= ux <= FINE,
        -FINE <= uy <= FINE,
        vy == -uy,
    ensures
        ({
            let x = (ux * n + vy * t) / (FINE as int);
            let y = (uy * n + ux * t) / (FINE as int);
            let q = ux * ux + uy * uy;
            let n2 = (x * ux + y * uy) / (FINE as int);
            let t2 = (x * vy + y * ux) / (FINE as int);
            &&& -(abs(n) + abs(t)) <= x <= abs(n) + abs(t)
            &&& -(abs(n) + abs(t)) <= y <= abs(n) + abs(t)
            &&& -3_000_000_000_000_000_000_000_000 < 1_000_000_000_000_000_000_000_000 * n2 - q
                * n < 3_000_000_000_000_000_000_000_000
            &&& -3_000_000_000_000_000_000_000_000 < 1_000_000_000_000_000_000_000_000 * t2 - q
                * t < 3_000_000_000_000_000_000_000_000
        }),
{
    let sx = ux * n + vy * t;
    let sy = uy * n + ux * t;
    let x = sx / (FINE as int);
    let y = sy / (FINE as int);
    let rx = sx % (FINE as int);
    let ry = sy % (FINE as int);
    lemma_fundamental_div_mod(sx, FINE as int);
    lemma_fundamental_div_mod(sy, FINE as int);
    let q = ux * ux + uy * uy;
    let qn = q * n;
    let qt = q * t;
    let m = abs(n) + abs(t);
    assert(-m * 1_000_000_000_000 <= sx <= m * 1_000_000_000_000 && -m * 1_000_000_000_000 <= sy
        <= m * 1_000_000_000_000) by (nonlinear_arith)
        requires
            sx == ux * n + vy * t,
            sy == uy * n + ux * t,
            m == abs(n) + abs(t),
            -1_000_000_000_000 <= ux <= 1_000_000_000_000,
            -1_000_000_000_000 <= uy <= 1_000_000_000_000,
            vy == -uy,
    ;
    // The products of the components with the sums.
    let a1 = (ux * ux) * n;
    let a2 = (ux * vy) * t;
    let a3 = (uy * uy) * n;
    let a4 = (uy * ux) * t;
    let c1 = (vy * ux) * n;
    let c2 = (vy * vy) * t;
    let c3 = (ux * uy) * n;
    let c4 = (ux * ux) * t;
    let uxsx = ux * sx;
    let uysy = uy * sy;
    let vysx = vy * sx;
    let uxsy = ux * sy;
    assert(uxsx == a1 + a2) by (nonlinear_arith)
        requires
            sx == ux * n + vy * t,
            uxsx == ux * sx,
            a1 == (ux * ux) * n,
            a2 == (ux * vy) * t,
    ;
    assert(uysy == a3 + a4) by (nonlinear_arith)
        requires
            sy == uy * n + ux * t,
            uysy == uy * sy,
            a3 == (uy * uy) * n,
            a4 == (uy * ux) * t,
    ;
    assert(vysx == c1 + c2) by (nonlinear_arith)
        requires
            sx == ux * n + vy * t,
            vysx == vy * sx,
            c1 == (vy * ux) * n,
            c2 == (vy * vy) * t,
    ;
    assert(uxsy == c3 + c4) by (nonlinear_arith)
        requires
            sy == uy * n + ux * t,
            uxsy == ux * sy,
            c3 == (ux * uy) * n,
            c4 == (ux * ux) * t,
    ;
    assert(a1 + a3 == qn && a2 + a4 == 0 && c2 + c4 == qt && c1 + c3 == 0) by (nonlinear_arith)
        requires
            a1 == (ux * ux) * n,
            a2 == (ux * vy) * t,
            a3 == (uy * uy) * n,
            a4 == (uy * ux) * t,
            c1 == (vy * ux) * n,
            c2 == (vy * vy) * t,
            c3 == (ux * uy) * n,
            c4 == (ux * ux) * t,
            qn == q * n,
            qt == q * t,
            q == ux * ux + uy * uy,
            vy == -uy,
    ;
    let g1 = ux * x;
    let g2 = uy * y;
    let g3 = vy * x;
    let g4 = ux * y;
    let e1 = ux * rx;
    let e2 = uy * ry;
    let e3 = vy * rx;
    let e4 = ux * ry;
    assert(uxsx == 1_000_000_000_000 * g1 + e1 && uysy == 1_000_000_000_000 * g2 + e2 && vysx
        == 1_000_000_000_000 * g3 + e3 && uxsy == 1_000_000_000_000 * g4 + e4)
        by (nonlinear_arith)
        requires
            sx == 1_000_000_000_000 * x + rx,
            sy == 1_000_000_000_000 * y + ry,
            uxsx == ux * sx,
            uysy == uy * sy,
            vysx == vy * sx,
            uxsy == ux * sy,
            g1 == ux * x,
            g2 == uy * y,
            g3 == vy * x,
            g4 == ux * y,
            e1 == ux * rx,
            e2 == uy * ry,
            e3 == vy * rx,
            e4 == ux * ry,
    ;
    assert(-1_000_000_000_000_000_000_000_000 < e1 < 1_000_000_000_000_000_000_000_000
        && -1_000_000_000_000_000_000_000_000 < e2 < 1_000_000_000_000_000_000_000_000
        && -1_000_000_000_000_000_000_000_000 < e3 < 1_000_000_000_000_000_000_000_000
        && -1_000_000_000_000_000_000_000_000 < e4 < 1_000_000_000_000_000_000_000_000)
        by (nonlinear_arith)
        requires
            e1 == ux * rx,
            e2 == uy * ry,
            e3 == vy * rx,
            e4 == ux * ry,
            -1_000_000_000_000 <= ux <= 1_000_000_000_000,
            -1_000_000_000_000 <= uy <= 1_000_000_000_000,
            -1_000_000_000_000 <= vy <= 1_000_000_000_000,
            0 <= rx < 1_000_000_000_000,
            0 <= ry < 1_000_000_000_000,
    ;
    let w = x * ux + y * uy;
    let z = x * vy + y * ux;
    assert(w == g1 + g2 && z == g3 + g4) by (nonlinear_arith)
        requires
            w == x * ux + y * uy,
            z == x * vy + y * ux,
            g1 == ux * x,
            g2 == uy * y,
            g3 == vy * x,
            g4 == ux * y,
    ;
    assert(1_000_000_000_000 * w == qn - (e1 + e2));
    assert(1_000_000_000_000 * z == qt - (e3 + e4));
    lemma_fundamental_div_mod(w, FINE as int);
    lemma_fundamental_div_mod(z, FINE as int);
}

/// A part that came back multiplied by a squared length `q` near that of one
/// differs from the part that went in by three units and eight parts in
/// `FINE` of it.
proof fn lemma_part_regained(q: int, part: int, regained: int, size: int)
    requires
        FINE * FINE - 4 * FINE <= q <= FINE * FINE + 6 * FINE + 2,
        -3_000_000_000_000_000_000_000_000 < 1_000_000_000_000_000_000_000_000 * regained - q
            * part < 3_000_000_000_000_000_000_000_000,
        -size <= part <= size,
    ensures
        -(3 * FINE + 8 * size) <= FINE * (regained - part) <= 3 * FINE + 8 * size,
{
    assert(FINE * FINE == 1_000_000_000_000_000_000_000_000) by (nonlinear_arith);
    let d = q - 1_000_000_000_000_000_000_000_000;
    let dp = d * part;
    let qp = q * part;
    assert(qp == 1_000_000_000_000_000_000_000_000 * part + dp) by (nonlinear_arith)
        requires
            d == q - 1_000_000_000_000_000_000_000_000,
            dp == d * part,
            qp == q * part,
    ;
    assert(-8_000_000_000_000 * size <= dp <= 8_000_000_000_000 * size) by (nonlinear_arith)
        requires
            dp == d * part,
            -8_000_000_000_000 <= d <= 8_000_000_000_000,
            -size <= part <= size,
    ;
    assert(-(3_000_000_000_000 + 8 * size) <= 1_000_000_000_000 * (regained - part)
        <= 3_000_000_000_000 + 8 * size);
}

/// A velocity put together from a part along a direction and a part across
/// it, and taken apart again: each part comes back multiplied by the squared
/// length of the direction, up to three units of rounding.
pub proof fn lemma_recomposed_parts(unit: Direction, normal: int, tangent: int)
    requires
        unit.wf(),
        abs(normal) + abs(tangent) <= LIMIT,
    ensures
        ({
            let v = recomposed(unit, normal, tangent);
            let parts = components_of(v, unit);
            let q = unit.norm_squared();
            &&& -3 * (FINE * FINE) < FINE * (FINE * parts.normal) - q * normal < 3 * (FINE * FINE)
            &&& -3 * (FINE * FINE) < FINE * (FINE * parts.tangent) - q * tangent < 3 * (FINE
                * FINE)
        }),
{
    let ux = unit.x as int;
    let uy = unit.y as int;
    let across = unit.perpendicular();
    assert(across.x == -uy);
    assert(across.y == ux);
    lemma_taken_apart_again(ux, uy, across.x as int, normal, tangent);
    let v = recomposed(unit, normal, tangent);
    assert(v.x == (ux * normal + across.x * tangent) / (FINE as int));
    assert(v.y == (uy * normal + across.y * tangent) / (FINE as int));
    lemma_component_bound(v, unit, LIMIT as int);
    assert(FINE * FINE == 1_000_000_000_000_000_000_000_000) by (nonlinear_arith);
}

/// What the laws of this file share: the velocities that the resolved
/// collision returns are put together from the exchanged parts along the
/// normal and the kept parts across it, and taken apart again they give
/// these parts back, up to rounding.
proof fn lemma_returned_velocities(a: Particle, b: Particle)
    requires
        a.wf(),
        b.wf(),
        colliding(a, b),
        within_speed_limit(a),
        within_speed_limit(b),
    ensures
        ({
            let unit = normal_between(a, b).direction();
            let after = resolved(a, b);
            let ca = components_of(a.velocity, unit);
            let cb = components_of(b.velocity, unit);
            let va = part_along(a.velocity, unit);
            let vb = part_along(b.velocity, unit);
            let speed = abs(va) + abs(vb);
            let na = elastic_normal(a.mass as int, b.mass as int, va, vb);
            let nb = elastic_normal(b.mass as int, a.mass as int, vb, va);
            let back_a = components_of(after.0.velocity, unit);
            let back_b = components_of(after.1.velocity, unit);
            &&& unit.wf()
            &&& ca.normal == va
            &&& cb.normal == vb
            &&& ca.tangent == part_along(a.velocity, unit.perpendicular())
            &&& cb.tangent == part_along(b.velocity, unit.perpendicular())
            &&& speed <= 4 * SPEED_LIMIT
            &&& -3 * speed <= na <= 3 * speed
            &&& -3 * speed <= nb <= 3 * speed
            &&& back_a.normal == part_along(after.0.velocity, unit)
            &&& back_b.normal == part_along(after.1.velocity, unit)
            &&& back_a.tangent == part_along(after.0.velocity, unit.perpendicular())
            &&& back_b.tangent == part_along(after.1.velocity, unit.perpendicular())
            &&& -(3 * FINE + 8 * abs(na)) <= FINE * (back_a.normal - na) <= 3 * FINE + 8 * abs(na)
            &&& -(3 * FINE + 8 * abs(nb)) <= FINE * (back_b.normal - nb) <= 3 * FINE + 8 * abs(nb)
            &&& -(3 * FINE + 8 * abs(ca.tangent as int)) <= FINE * (back_a.tangent - ca.tangent)
                <= 3 * FINE + 8 * abs(ca.tangent as int)
            &&& -(3 * FINE + 8 * abs(cb.tangent as int)) <= FINE * (back_b.tangent - cb.tangent)
                <= 3 * FINE + 8 * abs(cb.tangent as int)
        }),
{
    let normal = normal_between(a, b);
    let unit = normal.direction();
    normal.lemma_norm_bounds();
    normal.lemma_direction_bounds();
    let q = unit.norm_squared();
    let ma = a.mass as int;
    let mb = b.mass as int;
    lemma_component_bound(a.velocity, unit, SPEED_LIMIT as int);
    lemma_component_bound(b.velocity, unit, SPEED_LIMIT as int);
    let ca = components_of(a.velocity, unit);
    let cb = components_of(b.velocity, unit);
    let va = part_along(a.velocity, unit);
    let vb = part_along(b.velocity, unit);
    let speed: int = (abs(va) + abs(vb)) as int;
    let na = elastic_normal(ma, mb, va, vb);
    let nb = elastic_normal(mb, ma, vb, va);
    lemma_elastic_normal_bound(ma, mb, va, vb, speed);
    lemma_elastic_normal_bound(mb, ma, vb, va, speed);
    lemma_recomposed_parts(unit, na, ca.tangent as int);
    lemma_recomposed_parts(unit, nb, cb.tangent as int);
    let after = resolved(a, b);
    assert(after.0.velocity == recomposed(unit, na, ca.tangent as int));
    assert(after.1.velocity == recomposed(unit, nb, cb.tangent as int));
    lemma_component_bound(after.0.velocity, unit, LIMIT as int);
    lemma_component_bound(after.1.velocity, unit, LIMIT as int);
    let back_a = components_of(after.0.velocity, unit);
    let back_b = components_of(after.1.velocity, unit);
    assert(FINE * FINE == 1_000_000_000_000_000_000_000_000) by (nonlinear_arith);
    lemma_part_regained(q, na, back_a.normal as int, abs(na) as int);
    lemma_part_regained(q, nb, back_b.normal as int, abs(nb) as int);
    lemma_part_regained(q, ca.tangent as int, back_a.tangent as int, abs(ca.tangent as int) as int);
    lemma_part_regained(q, cb.tangent as int, back_b.tangent as int, abs(cb.tangent as int) as int);
}

/// The parts along the normal of the velocities that a resolved collision
/// returns keep the momentum, up to rounding: the momentum changes by no more
/// than the total mass times four units of velocity and 24 parts in `FINE`
/// of the sum of the magnitudes of the two parts before the collision.
pub proof fn lemma_momentum_of_resolved(a: Particle, b: Particle)
    requires
        a.wf(),
        b.wf(),
        colliding(a, b),
        within_speed_limit(a),
        within_speed_limit(b),
    ensures
        ({
            let unit = normal_between(a, b).direction();
            let after = resolved(a, b);
            let va = part_along(a.velocity, unit);
            let vb = part_along(b.velocity, unit);
            let wa = part_along(after.0.velocity, unit);
            let wb = part_along(after.1.velocity, unit);
            let before = momentum(a.mass as int, b.mass as int, va, vb);
            let later = momentum(a.mass as int, b.mass as int, wa, wb);
            let slack = (a.mass + b.mass) * (24 * (abs(va) + abs(vb)) + 4 * FINE);
            -slack <= FINE * (before - later) <= slack
        }),
{
    lemma_returned_velocities(a, b);
    let unit = normal_between(a, b).direction();
    let after = resolved(a, b);
    let ma = a.mass as int;
    let mb = b.mass as int;
    let va = part_along(a.velocity, unit);
    let vb = part_along(b.velocity, unit);
    let speed: int = (abs(va) + abs(vb)) as int;
    let na = elastic_normal(ma, mb, va, vb);
    let nb = elastic_normal(mb, ma, vb, va);
    let wa = part_along(after.0.velocity, unit);
    let wb = part_along(after.1.velocity, unit);
    lemma_momentum_conserved(ma, mb, va, vb);
    let da = wa - na;
    let db = wb - nb;
    let total = ma + mb;
    let bound = 3 * FINE + 24 * speed;
    let change = ma * da + mb * db;
    let reach = total * bound;
    assert(-reach <= 1_000_000_000_000 * change <= reach) by (nonlinear_arith)
        requires
            change == ma * da + mb * db,
            reach == (ma + mb) * bound,
            -bound <= 1_000_000_000_000 * da <= bound,
            -bound <= 1_000_000_000_000 * db <= bound,
            0 < ma,
            0 < mb,
    ;
    let before = momentum(ma, mb, va, vb);
    let middle = momentum(ma, mb, na, nb);
    let later = momentum(ma, mb, wa, wb);
    assert(later - middle == change) by (nonlinear_arith)
        requires
            later == ma * wa + mb * wb,
            middle == ma * na + mb * nb,
            change == ma * da + mb * db,
            da == wa - na,
            db == wb - nb,
    ;
    let slack = (a.mass + b.mass) * (24 * (abs(va) + abs(vb)) + 4 * FINE);
    assert(slack == reach + 1_000_000_000_000 * total) by (nonlinear_arith)
        requires
            slack == total * (24 * speed + 4_000_000_000_000),
            reach == total * bound,
            bound == 3_000_000_000_000 + 24 * speed,
    ;
    assert(0 <= before - middle < total);
    assert(-slack <= 1_000_000_000_000 * (before - later) <= slack);
}

/// The parts across the normal of the velocities that a resolved collision
/// returns are those before the collision, up to rounding: three units and
/// eight parts in `FINE` of the part.
pub proof fn lemma_tangent_of_resolved(a: Particle, b: Particle)
    requires
        a.wf(),
        b.wf(),
        colliding(a, b),
        within_speed_limit(a),
        within_speed_limit(b),
    ensures
        ({
            let across = normal_between(a, b).direction().perpendicular();
            let after = resolved(a, b);
            let ta = part_along(a.velocity, across);
            let tb = part_along(b.velocity, across);
            let ua = part_along(after.0.velocity, across);
            let ub = part_along(after.1.velocity, across);
            &&& -(3 * FINE + 8 * abs(ta)) <= FINE * (ua - ta) <= 3 * FINE + 8 * abs(ta)
            &&& -(3 * FINE + 8 * abs(tb)) <= FINE * (ub - tb) <= 3 * FINE + 8 * abs(tb)
        }),
{
    lemma_returned_velocities(a, b);
}

/// The parts along the normal of the velocities that a resolved collision
/// returns are reversed against each other, up to rounding: twice three
/// units and 24 parts in `FINE` of the sum of the magnitudes of the two
/// parts before the collision.
pub proof fn lemma_relative_velocity_of_resolved(a: Particle, b: Particle)
    requires
        a.wf(),
        b.wf(),
        colliding(a, b),
        within_speed_limit(a),
        within_speed_limit(b),
    ensures
        ({
            let unit = normal_between(a, b).direction();
            let after = resolved(a, b);
            let va = part_along(a.velocity, unit);
            let vb = part_along(b.velocity, unit);
            let wa = part_along(after.0.velocity, unit);
            let wb = part_along(after.1.velocity, unit);
            let slack = 2 * (3 * FINE + 24 * (abs(va) + abs(vb)));
            -slack <= FINE * ((wb - wa) + (vb - va)) <= slack
        }),
{
    lemma_returned_velocities(a, b);
    let unit = normal_between(a, b).direction();
    lemma_relative_velocity_reversed(
        a.mass as int,
        b.mass as int,
        part_along(a.velocity, unit),
        part_along(b.velocity, unit),
    );
}

/// The parts along the normal of the velocities that a resolved collision
/// returns keep the kinetic energy, up to rounding. With `na` and `nb` the
/// exchanged parts, a part comes back within `ra` or `rb` over `FINE`: three
/// units and eight parts in `FINE` of it. Twice the energy changes by no more
/// than what these roundings make of the squares, and twice the sum of the
/// magnitudes of the two momenta and the total mass for the rounding of the
/// exchange.
pub proof fn lemma_energy_of_resolved(a: Particle, b: Particle)
    requires
        a.wf(),
        b.wf(),
        colliding(a, b),
        within_speed_limit(a),
        within_speed_limit(b),
    ensures
        ({
            let unit = normal_between(a, b).direction();
            let after = resolved(a, b);
            let va = part_along(a.velocity, unit);
            let vb = part_along(b.velocity, unit);
            let na = elastic_normal(a.mass as int, b.mass as int, va, vb);
            let nb = elastic_normal(b.mass as int, a.mass as int, vb, va);
            let wa = part_along(after.0.velocity, unit);
            let wb = part_along(after.1.velocity, unit);
            let before = twice_energy(a.mass as int, b.mass as int, va, vb);
            let later = twice_energy(a.mass as int, b.mass as int, wa, wb);
            let ra = 3 * FINE + 8 * abs(na);
            let rb = 3 * FINE + 8 * abs(nb);
            let slack = a.mass * (ra * (2 * FINE * abs(na) + ra)) + b.mass * (rb * (2 * FINE * abs(
                nb,
            ) + rb)) + FINE * FINE * (2 * (a.mass * abs(na) + b.mass * abs(nb)) + a.mass + b.mass);
            -slack <= FINE * FINE * (before - later) <= slack
        }),
{
    lemma_returned_velocities(a, b);
    let unit = normal_between(a, b).direction();
    let after = resolved(a, b);
    let ma = a.mass as int;
    let mb = b.mass as int;
    let va = part_along(a.velocity, unit);
    let vb = part_along(b.velocity, unit);
    let na = elastic_normal(ma, mb, va, vb);
    let nb = elastic_normal(mb, ma, vb, va);
    let wa = part_along(after.0.velocity, unit);
    let wb = part_along(after.1.velocity, unit);
    lemma_energy_conserved(ma, mb, va, vb);
    let before = twice_energy(ma, mb, va, vb);
    let middle = twice_energy(ma, mb, na, nb);
    let later = twice_energy(ma, mb, wa, wb);
    let sa: int = abs(na) as int;
    let sb: int = abs(nb) as int;
    let ra = 3 * FINE + 8 * sa;
    let rb = 3 * FINE + 8 * sb;
    let reach_a = 2 * FINE * sa + ra;
    let reach_b = 2 * FINE * sb + rb;
    let rra = ra * reach_a;
    let rrb = rb * reach_b;
    // From the energy of the exchanged parts to that of the returned ones.
    let fa = wa * wa - na * na;
    let fb = wb * wb - nb * nb;
    lemma_square_regained(na, wa, sa, ra, reach_a, rra);
    lemma_square_regained(nb, wb, sb, rb, reach_b, rrb);
    let mfa = ma * fa;
    let mfb = mb * fb;
    let ta = ma * rra;
    let tb = mb * rrb;
    assert(-ta <= 1_000_000_000_000_000_000_000_000 * mfa <= ta) by (nonlinear_arith)
        requires
            mfa == ma * fa,
            ta == ma * rra,
            -rra <= 1_000_000_000_000_000_000_000_000 * fa <= rra,
            0 < ma,
    ;
    assert(-tb <= 1_000_000_000_000_000_000_000_000 * mfb <= tb) by (nonlinear_arith)
        requires
            mfb == mb * fb,
            tb == mb * rrb,
            -rrb <= 1_000_000_000_000_000_000_000_000 * fb <= rrb,
            0 < mb,
    ;
    assert(ma * wa * wa - ma * na * na == mfa) by (nonlinear_arith)
        requires
            mfa == ma * fa,
            fa == wa * wa - na * na,
    ;
    assert(mb * wb * wb - mb * nb * nb == mfb) by (nonlinear_arith)
        requires
            mfb == mb * fb,
            fb == wb * wb - nb * nb,
    ;
    assert(later - middle == mfa + mfb);
    // From the energy before to that of the exchanged parts.
    let x = ma * abs(na) + mb * abs(nb);
    assert(-(2 * x) <= before - middle < 2 * x + ma + mb);
    assert(FINE * FINE == 1_000_000_000_000_000_000_000_000) by (nonlinear_arith);
    let slack = a.mass * (ra * (2 * FINE * abs(na) + ra)) + b.mass * (rb * (2 * FINE * abs(nb)
        + rb)) + FINE * FINE * (2 * (a.mass * abs(na) + b.mass * abs(nb)) + a.mass + b.mass);
    assert(slack == ta + tb + 1_000_000_000_000_000_000_000_000 * (2 * x + ma + mb));
    let change = before - later;
    assert(-slack <= 1_000_000_000_000_000_000_000_000 * change <= slack);
    assert(FINE * FINE * change == 1_000_000_000_000_000_000_000_000 * change);
}

/// The square of a part that came back within `rounding` over `FINE` of the
/// part that went in, against the square of that part.
proof fn lemma_square_regained(
    part: int,
    regained: int,
    size: int,
    rounding: int,
    reach: int,
    rr: int,
)
    requires
        -size <= part <= size,
        -rounding <= FINE * (regained - part) <= rounding,
        reach == 2 * FINE * size + rounding,
        rr == rounding * reach,
    ensures
        -rr <= 1_000_000_000_000_000_000_000_000 * (regained * regained - part * part) <= rr,
{
    let d = 1_000_000_000_000 * (regained - part);
    let c = 2_000_000_000_000 * part + d;
    let f = regained * regained - part * part;
    assert(reach == 2_000_000_000_000 * size + rounding);
    assert(-reach <= c <= reach);
    assert(1_000_000_000_000_000_000_000_000 * f == d * c) by (nonlinear_arith)
        requires
            d == 1_000_000_000_000 * (regained - part),
            c == 2_000_000_000_000 * part + d,
            f == regained * regained - part * part,
    ;
    assert(-rr <= d * c <= rr) by (nonlinear_arith)
        requires
            -rounding <= d <= rounding,
            -reach <= c <= reach,
            rr == rounding * reach,
    ;
}

} // verus!
