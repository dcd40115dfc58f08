//! After a collision was resolved the two particles no longer overlap: their
//! distance is the sum of their radii less their distance before, up to what
//! the rounding of the push takes away or adds.

use vstd::prelude::*;
use vstd::arithmetic::div_mod::lemma_fundamental_div_mod;
use crate::collision::{colliding, distance_between, normal_between, resolved};
use crate::fixed::LIMIT;
use crate::particle::{lemma_radius_bounds, Particle};
use crate::vector::{lemma_fine_quotient_of_shorter, FINE};

verus! {

/// By how much the doubled distance of two particles may stay under the sum
/// of their radii after their collision was resolved.
pub const SEPARATION_TOLERANCE: i64 = 9;

/// Both particles are far enough from `LIMIT` for the push out of their
/// collision not to be cut off: by twice the sum of their radii.
pub open spec fn room_for_push(a: Particle, b: Particle) -> bool {
    let room = LIMIT - 2 * (a.radius + b.radius);
    &&& -room <= a.position.x <= room
    &&& -room <= a.position.y <= room
    &&& -room <= b.position.x <= room
    &&& -room <= b.position.y <= room
}

/// One component `n` of the vector between two colliding centres after both
/// particles were pushed. With `k` the factor of the lengthening, `g` the
/// length of the lengthened vector and `len` the length of the vector, the
/// component comes out stretched from `g` to `g + k * (radii - 2 * len)`, up
/// to the rounding of the direction and of the push.
proof fn lemma_pushed_component(n: int, k: int, g: int, len: int, radii: int)
    requires
        0 < k,
        FINE <= g,
        -g <= n * k <= g,
        0 < len,
        2 * len < radii,
    ensures
        ({
            let d = ((n * k) * FINE) / g;
            let o = 2 * len - radii;
            let dir = (d * o) / (2 * FINE);
            let moved = n - 2 * dir;
            let w = g - k * o;
            &&& -FINE <= d <= FINE
            &&& -radii <= 2 * dir <= radii
            &&& -(g * radii) <= FINE * (g * moved) - FINE * (w * n) <= 2 * FINE * g
        }),
{
    let e = n * k;
    let d = (e * FINE) / g;
    let o = 2 * len - radii;
    let dir = (d * o) / (2 * FINE);
    let moved = n - 2 * dir;
    let w = g - k * o;
    lemma_fine_quotient_of_shorter(e, g);
    lemma_fundamental_div_mod(e * FINE, g);
    lemma_fundamental_div_mod(d * o, 2 * FINE);
    let rho = (e * FINE) % g;
    let r = (d * o) % (2 * FINE);
    let doo = d * o;
    assert(-(radii - 2) * 1_000_000_000_000 <= doo <= (radii - 2) * 1_000_000_000_000)
        by (nonlinear_arith)
        requires
            doo == d * o,
            -1_000_000_000_000 <= d <= 1_000_000_000_000,
            -(radii - 2) <= o < 0,
    ;
    assert(doo == 2_000_000_000_000 * dir + r);
    assert(-radii <= 2 * dir <= radii);
    let gd = g * d;
    let gn = g * n;
    let gdir = g * dir;
    let gm = g * moved;
    let gr = g * r;
    let eo = e * o;
    let po = rho * o;
    let gdo = gd * o;
    let wn = w * n;
    assert(gd == 1_000_000_000_000 * e - rho);
    assert(gm == gn - 2 * gdir) by (nonlinear_arith)
        requires
            gm == g * moved,
            gn == g * n,
            gdir == g * dir,
            moved == n - 2 * dir,
    ;
    assert(gdo == 2_000_000_000_000 * gdir + gr) by (nonlinear_arith)
        requires
            gdo == (g * d) * o,
            d * o == 2_000_000_000_000 * dir + r,
            gdir == g * dir,
            gr == g * r,
    ;
    assert(gdo == 1_000_000_000_000 * eo - po) by (nonlinear_arith)
        requires
            gdo == gd * o,
            gd == 1_000_000_000_000 * e - rho,
            eo == e * o,
            po == rho * o,
    ;
    assert(wn == gn - eo) by (nonlinear_arith)
        requires
            wn == w * n,
            w == g - k * o,
            gn == g * n,
            eo == e * o,
            e == n * k,
    ;
    assert(FINE * gm - FINE * wn == po + gr);
    assert(-(g * radii) <= po <= 0) by (nonlinear_arith)
        requires
            po == rho * o,
            0 <= rho < g,
            -radii < o < 0,
    ;
    assert(0 <= gr <= 2_000_000_000_000 * g) by (nonlinear_arith)
        requires
            gr == g * r,
            0 <= r < 2_000_000_000_000,
            0 < g,
    ;
}

/// The square of a sum of a value within `a` and a value within `b` is at
/// least the square of the first, less twice `a * b`, and at most the square
/// of the first and twice `a * b` and the square of `b`.
proof fn lemma_square_of_disturbed(v: int, e: int, a: int, b: int)
    by (nonlinear_arith)
    requires
        -a <= v <= a,
        -b <= e <= b,
    ensures
        (v + e) * (v + e) >= v * v - 2 * (a * b),
        (v + e) * (v + e) <= v * v + 2 * (a * b) + b * b,
{
}

/// The squared length of the vector between the centres after the push,
/// times the square of the factor of the lengthening.
proof fn lemma_pushed_length(
    nx: int,
    ny: int,
    mx: int,
    my: int,
    k: int,
    g: int,
    w: int,
    radii: int,
)
    requires
        0 < k,
        FINE <= g,
        k <= w,
        0 < radii <= 2 * FINE,
        -g <= nx * k <= g,
        -g <= ny * k <= g,
        g * g <= (nx * k) * (nx * k) + (ny * k) * (ny * k) < (g + 1) * (g + 1),
        -(g * radii) <= FINE * (g * mx) - FINE * (w * nx) <= 2 * FINE * g,
        -(g * radii) <= FINE * (g * my) - FINE * (w * ny) <= 2 * FINE * g,
        w <= k * FINE,
    ensures
        (k * k) * (mx * mx + my * my) >= w * (w - 8 * k),
        (k * k) * (mx * mx + my * my) < (w + 6 * k) * (w + 6 * k),
{
    let ex = nx * k;
    let ey = ny * k;
    let e2 = ex * ex + ey * ey;
    let gg = g * g;
    // Everything times `k`: the lengthened components.
    let px = 1_000_000_000_000 * (g * (k * mx));
    let py = 1_000_000_000_000 * (g * (k * my));
    let vx = 1_000_000_000_000 * (w * ex);
    let vy = 1_000_000_000_000 * (w * ey);
    let a = 1_000_000_000_000 * (w * g);
    let b = 2_000_000_000_000 * (k * g);
    let hx = FINE * (g * mx) - FINE * (w * nx);
    let hy = FINE * (g * my) - FINE * (w * ny);
    assert(-(2_000_000_000_000 * g) <= hx <= 2_000_000_000_000 * g && -(2_000_000_000_000 * g)
        <= hy <= 2_000_000_000_000 * g) by (nonlinear_arith)
        requires
            -(g * radii) <= hx <= 2_000_000_000_000 * g,
            -(g * radii) <= hy <= 2_000_000_000_000 * g,
            0 < radii <= 2_000_000_000_000,
            0 < g,
    ;
    assert(px - vx == k * hx && py - vy == k * hy) by (nonlinear_arith)
        requires
            px == 1_000_000_000_000 * (g * (k * mx)),
            py == 1_000_000_000_000 * (g * (k * my)),
            vx == 1_000_000_000_000 * (w * ex),
            vy == 1_000_000_000_000 * (w * ey),
            ex == nx * k,
            ey == ny * k,
            hx == 1_000_000_000_000 * (g * mx) - 1_000_000_000_000 * (w * nx),
            hy == 1_000_000_000_000 * (g * my) - 1_000_000_000_000 * (w * ny),
    ;
    assert(-b <= px - vx <= b && -b <= py - vy <= b) by (nonlinear_arith)
        requires
            px - vx == k * hx,
            py - vy == k * hy,
            b == 2_000_000_000_000 * (k * g),
            -(2_000_000_000_000 * g) <= hx <= 2_000_000_000_000 * g,
            -(2_000_000_000_000 * g) <= hy <= 2_000_000_000_000 * g,
            0 < k,
    ;
    assert(-a <= vx <= a && -a <= vy <= a) by (nonlinear_arith)
        requires
            vx == 1_000_000_000_000 * (w * ex),
            vy == 1_000_000_000_000 * (w * ey),
            a == 1_000_000_000_000 * (w * g),
            -g <= ex <= g,
            -g <= ey <= g,
            0 < w,
    ;
    lemma_square_of_disturbed(vx, px - vx, a, b);
    lemma_square_of_disturbed(vy, py - vy, a, b);
    assert(px == vx + (px - vx));
    assert(py == vy + (py - vy));
    let ab = a * b;
    assert(px * px >= vx * vx - 2 * ab);
    assert(py * py >= vy * vy - 2 * ab);
    let fw = 1_000_000_000_000 * w;
    assert(vx == fw * ex && vy == fw * ey && a == fw * g) by (nonlinear_arith)
        requires
            vx == 1_000_000_000_000 * (w * ex),
            vy == 1_000_000_000_000 * (w * ey),
            a == 1_000_000_000_000 * (w * g),
            fw == 1_000_000_000_000 * w,
    ;
    assert(vx * vx + vy * vy >= a * a) by (nonlinear_arith)
        requires
            vx == fw * ex,
            vy == fw * ey,
            a == fw * g,
            g * g <= ex * ex + ey * ey,
    ;
    let m2 = mx * mx + my * my;
    let c = 1_000_000_000_000_000_000_000_000 * gg;
    let lhs = (k * k) * m2;
    let rhs = w * (w - 8 * k);
    let sx = k * mx;
    let sy = k * my;
    let tx = g * sx;
    let ty = g * sy;
    let ss = sx * sx + sy * sy;
    assert(ss == lhs) by (nonlinear_arith)
        requires
            ss == (k * mx) * (k * mx) + (k * my) * (k * my),
            lhs == (k * k) * m2,
            m2 == mx * mx + my * my,
    ;
    assert(tx * tx + ty * ty == gg * ss) by (nonlinear_arith)
        requires
            tx == g * sx,
            ty == g * sy,
            gg == g * g,
            ss == sx * sx + sy * sy,
    ;
    assert(px * px + py * py == 1_000_000_000_000_000_000_000_000 * (tx * tx + ty * ty))
        by (nonlinear_arith)
        requires
            px == 1_000_000_000_000 * tx,
            py == 1_000_000_000_000 * ty,
    ;
    assert(c * lhs == 1_000_000_000_000_000_000_000_000 * (gg * ss)) by (nonlinear_arith)
        requires
            c == 1_000_000_000_000_000_000_000_000 * gg,
            lhs == ss,
    ;
    assert(px * px + py * py == c * lhs);
    let wg = w * g;
    let kg = k * g;
    assert(a * a - 4 * ab == 1_000_000_000_000_000_000_000_000 * (wg * wg - 8 * (wg * kg)))
        by (nonlinear_arith)
        requires
            a == 1_000_000_000_000 * wg,
            b == 2_000_000_000_000 * kg,
            ab == a * b,
    ;
    assert(wg * wg - 8 * (wg * kg) == gg * rhs) by (nonlinear_arith)
        requires
            wg == w * g,
            kg == k * g,
            gg == g * g,
            rhs == w * (w - 8 * k),
    ;
    assert(c * rhs == 1_000_000_000_000_000_000_000_000 * (gg * rhs)) by (nonlinear_arith)
        requires
            c == 1_000_000_000_000_000_000_000_000 * gg,
    ;
    assert(a * a - 4 * ab == c * rhs);
    assert(0 < c) by (nonlinear_arith)
        requires
            c == 1_000_000_000_000_000_000_000_000 * (g * g),
            0 < g,
    ;
    assert(lhs >= rhs) by (nonlinear_arith)
        requires
            c * lhs >= c * rhs,
            0 < c,
    ;
    // From above.
    let bb = b * b;
    assert(px * px <= vx * vx + 2 * ab + bb);
    assert(py * py <= vy * vy + 2 * ab + bb);
    let top = a + fw;
    assert(vx * vx + vy * vy < top * top) by (nonlinear_arith)
        requires
            vx == fw * ex,
            vy == fw * ey,
            top == fw * g + fw,
            ex * ex + ey * ey < (g + 1) * (g + 1),
            0 < fw,
    ;
    let up = (w + 6 * k) * (w + 6 * k);
    let wk = wg + 6 * kg;
    assert(w <= kg) by (nonlinear_arith)
        requires
            w <= k * 1_000_000_000_000,
            kg == k * g,
            1_000_000_000_000 <= g,
            0 < k,
    ;
    assert(0 < wg) by (nonlinear_arith)
        requires
            wg == w * g,
            0 < w,
            0 < g,
    ;
    assert((wg + w) * (wg + w) + 8 * (wg * kg) + 8 * (kg * kg) <= wk * wk) by (nonlinear_arith)
        requires
            wk == wg + 6 * kg,
            0 < w <= kg,
            0 < wg,
    ;
    assert(top * top + 4 * ab + 2 * bb == 1_000_000_000_000_000_000_000_000 * ((wg + w) * (wg
        + w) + 8 * (wg * kg) + 8 * (kg * kg))) by (nonlinear_arith)
        requires
            top == 1_000_000_000_000 * wg + 1_000_000_000_000 * w,
            ab == a * b,
            bb == b * b,
            a == 1_000_000_000_000 * wg,
            b == 2_000_000_000_000 * kg,
    ;
    assert(wk * wk == gg * up) by (nonlinear_arith)
        requires
            wk == w * g + 6 * (k * g),
            gg == g * g,
            up == (w + 6 * k) * (w + 6 * k),
    ;
    assert(c * up == 1_000_000_000_000_000_000_000_000 * (gg * up)) by (nonlinear_arith)
        requires
            c == 1_000_000_000_000_000_000_000_000 * gg,
    ;
    assert(c * lhs < c * up);
    assert(lhs < up) by (nonlinear_arith)
        requires
            c * lhs < c * up,
            0 < c,
    ;
}

/// From the squared length after the push to the length: it is the sum of
/// the radii less the old length, up to five below and six above.
proof fn lemma_pushed_distance(m2: int, root: int, k: int, w: int, stretch: int)
    requires
        0 < k,
        k * stretch <= w < k * (stretch + 1),
        20 <= stretch,
        (k * k) * m2 >= w * (w - 8 * k),
        (k * k) * m2 < (w + 6 * k) * (w + 6 * k),
        0 <= root,
        root * root <= m2 < (root + 1) * (root + 1),
    ensures
        stretch - 5 <= root <= stretch + 6,
{
    let high = k * (stretch + 7);
    assert(0 < w) by (nonlinear_arith)
        requires
            k * stretch <= w,
            0 < k,
            20 <= stretch,
    ;
    assert((w + 6 * k) * (w + 6 * k) <= high * high) by (nonlinear_arith)
        requires
            0 < w < k * (stretch + 1),
            high == k * (stretch + 7),
            0 < k,
    ;
    assert(high * high == (k * k) * ((stretch + 7) * (stretch + 7))) by (nonlinear_arith)
        requires
            high == k * (stretch + 7),
    ;
    let k2 = k * k;
    let cap = (stretch + 7) * (stretch + 7);
    assert(m2 < cap) by (nonlinear_arith)
        requires
            k2 * m2 < k2 * cap,
            k2 == k * k,
            0 < k,
    ;
    assert(root < stretch + 7) by (nonlinear_arith)
        requires
            root * root < (stretch + 7) * (stretch + 7),
            0 <= root,
            20 <= stretch,
    ;
    let ks = k * stretch;
    assert(w * (w - 8 * k) >= ks * (ks - 8 * k)) by (nonlinear_arith)
        requires
            ks <= w,
            ks == k * stretch,
            20 <= stretch,
            0 < k,
    ;
    assert(ks * (ks - 8 * k) == (k * k) * (stretch * (stretch - 8))) by (nonlinear_arith)
        requires
            ks == k * stretch,
    ;
    let kk = k * k;
    let low = stretch * (stretch - 8);
    assert(m2 >= low) by (nonlinear_arith)
        requires
            kk * m2 >= kk * low,
            kk == k * k,
            0 < k,
    ;
    assert(low >= (stretch - 5) * (stretch - 5)) by (nonlinear_arith)
        requires
            low == stretch * (stretch - 8),
            20 <= stretch,
    ;
    assert(root + 1 > stretch - 5) by (nonlinear_arith)
        requires
            (root + 1) * (root + 1) > (stretch - 5) * (stretch - 5),
            0 <= root,
            20 <= stretch,
    ;
}

/// The length of the lengthened vector against the length of the vector.
proof fn lemma_fine_norm_of_length(nx: int, ny: int, k: int, g: int, len: int)
    requires
        0 < k,
        0 <= g,
        0 <= len,
        g * g <= (nx * k) * (nx * k) + (ny * k) * (ny * k) < (g + 1) * (g + 1),
        len * len <= nx * nx + ny * ny < (len + 1) * (len + 1),
    ensures
        k * len <= g < k * (len + 1),
{
    let e2 = (nx * k) * (nx * k) + (ny * k) * (ny * k);
    let n2 = nx * nx + ny * ny;
    let kl = k * len;
    let kl1 = k * (len + 1);
    assert(e2 == (k * k) * n2) by (nonlinear_arith)
        requires
            e2 == (nx * k) * (nx * k) + (ny * k) * (ny * k),
            n2 == nx * nx + ny * ny,
    ;
    assert(kl * kl <= e2 && e2 < kl1 * kl1 && 0 <= kl && 0 < kl1) by (nonlinear_arith)
        requires
            e2 == (k * k) * n2,
            kl == k * len,
            kl1 == k * (len + 1),
            len * len <= n2,
            n2 < (len + 1) * (len + 1),
            0 < k,
            0 <= len,
    ;
    assert(kl <= g && g < kl1) by (nonlinear_arith)
        requires
            kl * kl <= e2,
            e2 < (g + 1) * (g + 1),
            g * g <= e2,
            e2 < kl1 * kl1,
            0 <= g,
            0 <= kl,
            0 < kl1,
    ;
}

/// After the collision of two particles was resolved, they no longer
/// overlap: their doubled distance reaches the sum of their radii, up to
/// `SEPARATION_TOLERANCE`. Their distance is the sum of their radii less
/// their distance before, up to five below and six above, and each was moved
/// by the same step, in opposite ways.
pub proof fn lemma_resolved_apart(a: Particle, b: Particle)
    requires
        a.wf(),
        b.wf(),
        room_for_push(a, b),
        colliding(a, b),
    ensures
        distance_between(resolved(a, b).0, resolved(a, b).1) + SEPARATION_TOLERANCE >= a.radius
            + b.radius,
        a.radius + b.radius - normal_between(a, b).norm() - 5 <= normal_between(
            resolved(a, b).0,
            resolved(a, b).1,
        ).norm() <= a.radius + b.radius - normal_between(a, b).norm() + 6,
        resolved(a, b).0.position.x + resolved(a, b).1.position.x == a.position.x + b.position.x,
        resolved(a, b).0.position.y + resolved(a, b).1.position.y == a.position.y + b.position.y,
{
    let normal = normal_between(a, b);
    let len = normal.norm();
    let radii = a.radius + b.radius;
    lemma_radius_bounds(a.mass as int);
    lemma_radius_bounds(b.mass as int);
    normal.lemma_norm_bounds();
    normal.lemma_fine_norm_bounds();
    normal.lemma_direction_bounds();
    let nx = normal.x as int;
    let ny = normal.y as int;
    let k = normal.fine_scale();
    let g = normal.fine_norm();
    assert(normal.fine_x() == nx * k);
    assert(normal.fine_y() == ny * k);
    lemma_fine_norm_of_length(nx, ny, k, g, len);
    lemma_pushed_component(nx, k, g, len, radii);
    lemma_pushed_component(ny, k, g, len, radii);
    let o = 2 * len - radii;
    let w = g - k * o;
    let stretch = radii - len;
    assert(k * stretch <= w < k * (stretch + 1) && k <= w && w <= k * 1_000_000_000_000)
        by (nonlinear_arith)
        requires
            w == g - k * o,
            o == 2 * len - radii,
            stretch == radii - len,
            k * len <= g < k * (len + 1),
            0 < k,
            0 < len,
            2 * len < radii,
            radii <= 500_000_000_000,
    ;
    let after = resolved(a, b);
    let moved = normal_between(after.0, after.1);
    let d = normal.direction();
    let dx = (d.x * o) / (2 * FINE);
    let dy = (d.y * o) / (2 * FINE);
    assert(nx == b.position.x - a.position.x);
    assert(ny == b.position.y - a.position.y);
    assert(after.0.position.x == a.position.x + dx);
    assert(after.0.position.y == a.position.y + dy);
    assert(after.1.position.x == b.position.x - dx);
    assert(after.1.position.y == b.position.y - dy);
    assert(moved.x == nx - 2 * dx);
    assert(moved.y == ny - 2 * dy);
    lemma_pushed_length(nx, ny, moved.x as int, moved.y as int, k, g, w, radii);
    moved.lemma_norm_bounds();
    lemma_pushed_distance(moved.norm_squared(), moved.norm(), k, w, stretch);
}

} // verus!
