use particle_sim::collision::{decompose, exchange, recompose, resolve, Components};
use particle_sim::fixed::{div_floor, isqrt, saturating, HALF, LIMIT, ONE};
use particle_sim::integrator::{MAX_SCREEN_DIAGONAL, WINDOW_HEIGHT, WINDOW_WIDTH};
use particle_sim::particle::{Particle, Srgba, MASS_LIMIT, MASS_MAX, MASS_MIN, RADIUS_MAX};
use particle_sim::vector::{Direction, Vec2, FINE};

fn units(x: i64) -> i64 {
    x * ONE
}

fn at(x: i64, y: i64) -> Vec2 {
    Vec2::new(units(x), units(y))
}

fn body(mass: i64, position: Vec2, velocity: Vec2) -> Particle {
    let mut p = Particle::new(mass, position, velocity, Vec2::zero());
    p.is_new = false;
    p
}

fn as_real(x: i64) -> f64 {
    x as f64 / ONE as f64
}

#[test]
fn div_floor_rounds_toward_negative_infinity() {
    assert_eq!(div_floor(7, 2), 3);
    assert_eq!(div_floor(-7, 2), -4);
    assert_eq!(div_floor(-8, 2), -4);
    assert_eq!(div_floor(0, 5), 0);
    assert_eq!(div_floor(-1, 1_000_000), -1);
    assert_eq!(div_floor(i128::MIN, 1), i128::MIN);
}

#[test]
fn isqrt_rounds_down() {
    assert_eq!(isqrt(0), 0);
    assert_eq!(isqrt(1), 1);
    assert_eq!(isqrt(3), 1);
    assert_eq!(isqrt(4), 2);
    assert_eq!(isqrt(24), 4);
    assert_eq!(isqrt(25), 5);
    assert_eq!(isqrt(10_000_000_000_000), 3_162_277);
    assert_eq!(isqrt(u128::MAX), u64::MAX);
}

#[test]
fn saturating_keeps_values_within_the_limit() {
    assert_eq!(saturating(5), 5);
    assert_eq!(saturating(LIMIT as i128 + 1), LIMIT);
    assert_eq!(saturating(-(LIMIT as i128) - 1), -LIMIT);
    assert_eq!(saturating(i128::MAX), LIMIT);
}

#[test]
fn vector_sum_and_difference() {
    let a = at(3, -4);
    let b = at(1, 2);
    assert_eq!(a.add(b), at(4, -2));
    assert_eq!(a.sub(b), at(2, -6));
    let far = Vec2::new(LIMIT, -LIMIT);
    assert_eq!(far.add(far), Vec2 { x: LIMIT, y: -LIMIT });
    assert_eq!(Vec2::new(i64::MAX, i64::MIN), Vec2 { x: LIMIT, y: -LIMIT });
}

#[test]
fn vector_scale_rounds_down() {
    assert_eq!(at(3, -4).scale(units(2)), at(6, -8));
    assert_eq!(Vec2 { x: 3, y: -3 }.scale(HALF), Vec2 { x: 1, y: -2 });
    assert_eq!(at(1, 1).scale(i64::MAX), Vec2 { x: LIMIT, y: LIMIT });
}

#[test]
fn vector_dot_length_and_normalize() {
    let v = at(3, -4);
    assert_eq!(v.dot(at(2, 1)), units(2));
    assert_eq!(v.length(), units(5));
    assert_eq!(v.normalize(), Vec2 { x: 600_000, y: -800_000 });
    assert_eq!(v.perp(), at(4, 3));
    assert_eq!(at(1, 1).length(), 1_414_213);
    assert_eq!(at(1, 1).normalize(), Vec2 { x: 707_106, y: 707_106 });
}

#[test]
fn direction_has_length_one_for_short_and_long_vectors() {
    assert_eq!(at(3, -4).direction_of(), Direction { x: 600_000_000_000, y: -800_000_000_000 });
    assert_eq!(at(0, 5).direction_of(), Direction { x: 0, y: FINE });
    let short = Vec2 { x: 1, y: 1 };
    assert_eq!(short.direction_of(), Direction { x: 707_106_781_186, y: 707_106_781_186 });
    assert_eq!(short.normalize(), Vec2 { x: 707_106, y: 707_106 });
    let skew = Vec2 { x: 7, y: -3 };
    assert_eq!(skew.direction_of(), Direction { x: 919_145_030_018, y: -393_919_298_580 });
    assert_eq!(Vec2::zero().direction_of(), Direction { x: 0, y: 0 });
    let vectors = [
        Vec2 { x: 1, y: 0 },
        Vec2 { x: -1, y: 1 },
        Vec2 { x: 999_999, y: -999_999 },
        Vec2 { x: 1_000_000, y: 1 },
        Vec2 { x: -123, y: 4_567_890 },
        Vec2 { x: LIMIT, y: -LIMIT },
        Vec2 { x: 1, y: LIMIT },
    ];
    let one = FINE as i128 * FINE as i128;
    for v in vectors.iter() {
        let d = v.direction_of();
        let q = d.x as i128 * d.x as i128 + d.y as i128 * d.y as i128;
        assert!(one - 4 * FINE as i128 <= q && q <= one + 6 * FINE as i128 + 2);
        let u = v.normalize();
        let p = u.x as i128 * u.x as i128 + u.y as i128 * u.y as i128;
        let unit = ONE as i128 * ONE as i128;
        assert!((p - unit).abs() <= 4 * ONE as i128);
    }
}

#[test]
fn normalize_of_the_zero_vector_is_the_zero_vector() {
    assert_eq!(Vec2::zero().length(), 0);
    assert_eq!(Vec2::zero().normalize(), Vec2::zero());
}

#[test]
fn radius_is_twenty_times_the_root_of_the_mass() {
    let p = Particle::new(units(4), at(0, 0), Vec2::zero(), Vec2::zero());
    assert_eq!(p.mass, units(4));
    assert_eq!(p.radius, units(40));
    assert_eq!(as_real(p.radius), 40.0);
    let q = Particle::new(2_500_000, at(0, 0), Vec2::zero(), Vec2::zero());
    assert_eq!(q.radius, 31_622_760);
}

#[test]
fn new_particle_is_white_new_and_keeps_its_vectors() {
    let p = Particle::new(units(1), at(7, 8), at(1, 2), at(0, -1));
    assert_eq!(p.radius, units(20));
    assert_eq!(p.position, at(7, 8));
    assert_eq!(p.velocity, at(1, 2));
    assert_eq!(p.acceleration, at(0, -1));
    assert_eq!(p.color, Srgba::new(ONE, ONE, ONE, ONE));
    assert!(p.is_new);
}

#[test]
fn every_positive_mass_is_kept() {
    let heavy = Particle::new(units(16), at(0, 0), Vec2::zero(), Vec2::zero());
    assert_eq!(heavy.mass, units(16));
    assert_eq!(heavy.radius, units(80));
    let light = Particle::new(HALF, at(0, 0), Vec2::zero(), Vec2::zero());
    assert_eq!(light.mass, HALF);
    assert_eq!(light.radius, 14_142_120);
    let smallest = Particle::new(1, at(0, 0), Vec2::zero(), Vec2::zero());
    assert_eq!(smallest.mass, 1);
    assert_eq!(smallest.radius, 20_000);
    let largest = Particle::new(MASS_LIMIT, at(0, 0), Vec2::zero(), Vec2::zero());
    assert_eq!(largest.mass, MASS_LIMIT);
    assert_eq!(largest.radius, LIMIT);
    let drawn = Particle::new(MASS_MAX, at(0, 0), Vec2::zero(), Vec2::zero());
    assert_eq!(drawn.mass, MASS_MAX);
    assert_eq!(drawn.radius, RADIUS_MAX);
}

#[test]
fn mass_that_is_not_positive_is_replaced_by_the_smallest() {
    let zero = Particle::new(0, at(0, 0), Vec2::zero(), Vec2::zero());
    assert_eq!(zero.mass, 1);
    assert_eq!(zero.radius, 20_000);
    let negative = Particle::new(-units(3), at(0, 0), Vec2::zero(), Vec2::zero());
    assert_eq!(negative.mass, 1);
    assert_eq!(negative.radius, 20_000);
    let lowest = Particle::new(i64::MIN, at(0, 0), Vec2::zero(), Vec2::zero());
    assert_eq!(lowest.mass, 1);
}

#[test]
fn mass_above_the_limit_is_replaced_by_the_limit() {
    let above = Particle::new(MASS_LIMIT + 1, at(0, 0), Vec2::zero(), Vec2::zero());
    assert_eq!(above.mass, MASS_LIMIT);
    assert_eq!(above.radius, LIMIT);
    let highest = Particle::new(i64::MAX, at(0, 0), Vec2::zero(), Vec2::zero());
    assert_eq!(highest.mass, MASS_LIMIT);
}

#[test]
fn four_times_the_mass_gives_twice_the_radius() {
    let a = Particle::new(units(4), at(0, 0), Vec2::zero(), Vec2::zero());
    let b = Particle::new(units(16), at(0, 0), Vec2::zero(), Vec2::zero());
    assert_eq!(b.radius, 2 * a.radius);
    let masses = [1, 7, HALF, 1_234_567, units(3), units(10), units(1234), MASS_LIMIT / 4];
    for &m in masses.iter() {
        let one = Particle::new(m, at(0, 0), Vec2::zero(), Vec2::zero());
        let four = Particle::new(4 * m, at(0, 0), Vec2::zero(), Vec2::zero());
        assert!(2 * one.radius <= four.radius && four.radius <= 2 * one.radius + 20);
        assert!(one.radius < four.radius);
    }
}

#[test]
fn larger_mass_gives_no_smaller_radius() {
    let masses = [1, 2, 999_999, MASS_MIN, 1_000_001, units(2), units(9), MASS_MAX, units(11), units(1600), MASS_LIMIT];
    let mut last = 0;
    for &m in masses.iter() {
        let p = Particle::new(m, at(0, 0), Vec2::zero(), Vec2::zero());
        assert!(p.radius > 0);
        assert!(last <= p.radius);
        last = p.radius;
    }
    let two = Particle::new(units(2), at(0, 0), Vec2::zero(), Vec2::zero());
    let nine = Particle::new(units(9), at(0, 0), Vec2::zero(), Vec2::zero());
    assert_eq!(two.radius, 28_284_260);
    assert_eq!(nine.radius, units(60));
}

#[test]
fn particle_larger_than_the_viewport_is_set_onto_a_wall() {
    // Radius 1000: the walls stand at 0 and, turned round, at 100 and -100.
    let mut p = body(units(2500), at(5, 0), at(1, 2));
    assert_eq!(p.radius, units(1000));
    p.bounce();
    assert_eq!(p.position, at(0, 100));
    assert_eq!(p.velocity, at(-1, -2));
    let mut q = body(units(2500), at(0, 150), at(1, 2));
    q.bounce();
    assert_eq!(q.position, at(0, -100));
    assert_eq!(q.velocity, at(1, -2));
}

#[test]
fn heavy_and_light_particles_collide() {
    let a = body(units(16), at(-10, 0), at(3, 0));
    let b = body(HALF, at(10, 0), at(-1, 0));
    let (a2, b2) = resolve(a, b);
    // Radii 80 and 14.14212, doubled distance 40: pushed by 27.07106 each.
    assert_eq!(a2.position, Vec2 { x: -37_071_060, y: 0 });
    assert_eq!(b2.position, Vec2 { x: 37_071_060, y: 0 });
    assert_eq!(a2.velocity, Vec2 { x: 2_757_575, y: 0 });
    assert_eq!(b2.velocity, Vec2 { x: 6_757_575, y: 0 });
    assert_eq!(a2.mass, units(16));
    assert_eq!(b2.mass, HALF);
}

#[test]
fn pastel_channels_lie_in_the_upper_half() {
    let c = Srgba::pastel(0, HALF, ONE - 1);
    assert_eq!(c, Srgba::new(500_000, 750_000, 999_999, HALF));
    let d = Srgba::pastel(-5, 2 * ONE, 1);
    assert_eq!(d, Srgba::new(HALF, ONE, 500_000, HALF));
}

#[test]
fn display_is_as_wide_and_high_as_the_radius() {
    let mut p = Particle::new(units(4), at(-3, 9), Vec2::zero(), Vec2::zero());
    p.color = Srgba::pastel(1, 2, 3);
    let e = p.display();
    assert_eq!(e.width, units(40));
    assert_eq!(e.height, units(40));
    assert_eq!(e.xy, at(-3, 9));
    assert_eq!(e.color, p.color);
}

#[test]
fn diagonal_of_the_viewport() {
    let corner = Vec2::new(WINDOW_WIDTH, WINDOW_HEIGHT);
    assert_eq!(corner.length(), MAX_SCREEN_DIAGONAL);
    assert!((as_real(MAX_SCREEN_DIAGONAL) - 1280.6248).abs() < 1e-3);
}

#[test]
fn launch_velocity_follows_the_drag() {
    let mut p = Particle::new(units(1), at(0, 0), Vec2::zero(), Vec2::zero());
    p.aim(false, at(100, 0));
    assert!(!p.is_new);
    assert_eq!(p.velocity, Vec2 { x: 3_123_440, y: 0 });
    assert!((as_real(p.velocity.x) - 100.0 / 1280.6 * 40.0).abs() < 1e-2);
    let mut q = Particle::new(units(1), at(10, -20), Vec2::zero(), Vec2::zero());
    q.aim(false, at(310, 380));
    assert_eq!(q.velocity, Vec2 { x: 9_370_416, y: 12_493_888 });
}

#[test]
fn new_particle_rests_while_the_pointer_is_down() {
    let mut p = Particle::new(units(1), at(0, 0), at(3, 4), Vec2::zero());
    p.aim(true, at(100, 0));
    assert!(p.is_new);
    assert_eq!(p.velocity, Vec2::zero());
    p.integrate(true, at(100, 50));
    assert!(p.is_new);
    assert_eq!(p.position, at(0, 0));
}

#[test]
fn launch_with_a_drag_of_no_length_gives_no_velocity() {
    let mut p = Particle::new(units(1), at(5, 5), at(1, 1), Vec2::zero());
    p.aim(false, at(5, 5));
    assert!(!p.is_new);
    assert_eq!(p.velocity, Vec2::zero());
}

#[test]
fn launched_particle_keeps_its_velocity_afterwards() {
    let mut p = body(units(1), at(0, 0), at(2, 3));
    p.aim(false, at(100, 0));
    assert_eq!(p.velocity, at(2, 3));
    p.aim(true, at(100, 0));
    assert_eq!(p.velocity, at(2, 3));
}

#[test]
fn advance_adds_acceleration_then_velocity() {
    let mut p = Particle::new(units(1), at(1, 1), at(2, 0), at(0, -1));
    p.advance();
    assert_eq!(p.velocity, at(2, -1));
    assert_eq!(p.position, at(3, 0));
}

#[test]
fn bounce_sets_the_particle_onto_the_wall_and_reverses_it() {
    // Radius 20: the walls stand at 490 and 390 units from the centre.
    let mut p = body(units(1), at(495, 0), at(7, 2));
    p.bounce();
    assert_eq!(p.position, at(490, 0));
    assert_eq!(p.velocity, at(-7, 2));
    let mut q = body(units(1), at(-600, -391), at(-7, -2));
    q.bounce();
    assert_eq!(q.position, at(-490, -390));
    assert_eq!(q.velocity, at(7, 2));
    let mut r = body(units(1), at(490, -390), at(1, -1));
    r.bounce();
    assert_eq!(r.position, at(490, -390));
    assert_eq!(r.velocity, at(1, -1));
}

#[test]
fn particle_stays_between_the_walls_over_many_frames() {
    let mut p = body(units(4), at(450, 350), at(37, -23));
    let bound_x = (WINDOW_WIDTH - p.radius) / 2;
    let bound_y = (WINDOW_HEIGHT - p.radius) / 2;
    let mut reversed = false;
    for _ in 0..500 {
        let before = p.velocity;
        p.integrate(false, at(0, 0));
        assert!(-bound_x <= p.position.x && p.position.x <= bound_x);
        assert!(-bound_y <= p.position.y && p.position.y <= bound_y);
        if p.velocity.x == -before.x {
            reversed = true;
        }
    }
    assert!(reversed);
}

#[test]
fn exchange_of_equal_masses_swaps_the_normal_velocities() {
    let a = Components { normal: units(5), tangent: units(2) };
    let b = Components { normal: 0, tangent: -units(3) };
    let (a2, b2) = exchange(units(1), units(1), a, b);
    assert_eq!(a2, Components { normal: 0, tangent: units(2) });
    assert_eq!(b2, Components { normal: units(5), tangent: -units(3) });
}

#[test]
fn exchange_of_unequal_masses() {
    let a = Components { normal: units(7), tangent: 11 };
    let b = Components { normal: -units(1), tangent: 13 };
    let (a2, b2) = exchange(units(2), units(3), a, b);
    assert_eq!(a2.normal, -2_600_000);
    assert_eq!(b2.normal, 5_400_000);
    assert_eq!(a2.tangent, 11);
    assert_eq!(b2.tangent, 13);
}

#[test]
fn exchange_keeps_momentum_and_energy() {
    let masses = [MASS_MIN, 1_234_567, 3_333_333, 7_000_001, MASS_MAX];
    let speeds = [-units(40), -1_234_567, -1, 0, 3, 999_999, units(17)];
    for &ma in masses.iter() {
        for &mb in masses.iter() {
            for &va in speeds.iter() {
                for &vb in speeds.iter() {
                    let a = Components { normal: va, tangent: 5 };
                    let b = Components { normal: vb, tangent: -5 };
                    let (a2, b2) = exchange(ma, mb, a, b);
                    let (ma, mb) = (ma as i128, mb as i128);
                    let (va, vb) = (va as i128, vb as i128);
                    let (wa, wb) = (a2.normal as i128, b2.normal as i128);
                    let before = ma * va + mb * vb;
                    let after = ma * wa + mb * wb;
                    assert!(after <= before && before < after + ma + mb);
                    let energy_before = ma * va * va + mb * vb * vb;
                    let energy_after = ma * wa * wa + mb * wb * wb;
                    let slack = 2 * (ma * wa.abs() + mb * wb.abs());
                    assert!(energy_after - slack <= energy_before);
                    assert!(energy_before < energy_after + slack + ma + mb);
                    let scale = (ONE as f64) * (ONE as f64);
                    assert!(((before - after) as f64 / scale).abs() < 1e-4);
                    assert_eq!(wb - wa, -(vb - va));
                    assert_eq!(a2.tangent, 5);
                    assert_eq!(b2.tangent, -5);
                }
            }
        }
    }
}

#[test]
fn decompose_and_recompose_along_an_axis() {
    let unit = Direction { x: FINE, y: 0 };
    let c = decompose(at(3, -4), unit);
    assert_eq!(c, Components { normal: units(3), tangent: -units(4) });
    assert_eq!(recompose(unit, c), at(3, -4));
    let slanted = Direction { x: 600_000_000_000, y: 800_000_000_000 };
    let d = decompose(at(5, 10), slanted);
    assert_eq!(d, Components { normal: units(11), tangent: units(2) });
    assert_eq!(recompose(slanted, d), at(5, 10));
}

#[test]
fn close_centres_keep_momentum_and_are_pushed_to_the_sum_of_the_radii() {
    // Two unit masses, one raw unit apart along each axis.
    let a = body(units(1), Vec2 { x: 0, y: 0 }, at(1, 0));
    let b = body(units(1), Vec2 { x: 1, y: 1 }, at(0, 0));
    let unit = b.position.sub(a.position).direction_of();
    assert_eq!(unit, Direction { x: 707_106_781_186, y: 707_106_781_186 });
    let (a2, b2) = resolve(a, b);
    assert_eq!(a2.position, Vec2 { x: -14_142_135, y: -14_142_135 });
    assert_eq!(b2.position, Vec2 { x: 14_142_136, y: 14_142_136 });
    assert_eq!(a2.velocity, Vec2 { x: 500_000, y: -500_001 });
    assert_eq!(b2.velocity, Vec2 { x: 499_999, y: 499_999 });
    // The distance is the sum of the radii less the old distance.
    let apart = b2.position.sub(a2.position).length();
    assert_eq!(apart, 39_999_999);
    assert!((as_real(apart) - 40.0).abs() < 1e-5);
    assert_eq!(a2.position.add(b2.position), a.position.add(b.position));
    // Along the normal the parts 0.707106 and 0 are exchanged.
    let before_a = decompose(a.velocity, unit).normal;
    let before_b = decompose(b.velocity, unit).normal;
    let after_a = decompose(a2.velocity, unit).normal;
    let after_b = decompose(b2.velocity, unit).normal;
    assert_eq!((before_a, before_b), (707_106, 0));
    assert_eq!((after_a, after_b), (-1, 707_105));
    let before = as_real(before_a + before_b);
    let after = as_real(after_a + after_b);
    assert!((before - after).abs() < 1e-5);
    let energy_before = as_real(before_a) * as_real(before_a) + as_real(before_b) * as_real(before_b);
    let energy_after = as_real(after_a) * as_real(after_a) + as_real(after_b) * as_real(after_b);
    assert!((energy_before - energy_after).abs() < 1e-5);
    assert!((as_real(after_b - after_a) + as_real(before_b - before_a)).abs() < 1e-5);
}

#[test]
fn two_equal_particles_swap_their_normal_velocities() {
    let a = body(units(1), at(-5, 0), at(5, 0));
    let b = body(units(1), at(5, 0), at(0, 0));
    let (a2, b2) = resolve(a, b);
    assert_eq!(a2.velocity, at(0, 0));
    assert_eq!(b2.velocity, at(5, 0));
    assert_eq!(a2.position, at(-15, 0));
    assert_eq!(b2.position, at(15, 0));
    assert!((as_real(a2.velocity.x) - 0.0).abs() < 1e-4);
    assert!((as_real(b2.velocity.x) - 5.0).abs() < 1e-4);
}

#[test]
fn particles_whose_doubled_distance_reaches_the_radii_do_not_collide() {
    let a = body(units(1), at(-30, 0), at(5, 0));
    let b = body(units(1), at(30, 0), at(0, 0));
    assert_eq!(resolve(a, b), (a, b));
    let c = body(units(1), at(-10, 0), at(5, 0));
    let d = body(units(1), at(10, 0), at(0, 0));
    assert_eq!(resolve(c, d), (c, d));
}

#[test]
fn particles_at_the_same_place_are_left_alone() {
    let a = body(units(1), at(3, 3), at(5, 0));
    let b = body(units(2), at(3, 3), at(0, -1));
    assert_eq!(resolve(a, b), (a, b));
}

#[test]
fn tangential_velocity_is_kept_along_an_axis() {
    let a = body(units(2), at(0, -4), at(3, 6));
    let b = body(units(5), at(0, 4), at(-2, -1));
    let (a2, b2) = resolve(a, b);
    // The normal is the vertical axis: the horizontal parts stay.
    assert_eq!(a2.velocity.x, units(3));
    assert_eq!(b2.velocity.x, -units(2));
    assert_eq!(a2.velocity.y, -units(4));
    assert_eq!(b2.velocity.y, units(3));
}

#[test]
fn slanted_collision() {
    let a = body(units(2), at(0, 0), at(3, 1));
    let b = body(units(5), at(12, 16), at(-2, 0));
    assert_eq!(a.radius, 28_284_260);
    assert_eq!(b.radius, 44_721_340);
    let (a2, b2) = resolve(a, b);
    assert_eq!(a2.position, Vec2 { x: -9_901_680, y: -13_202_240 });
    assert_eq!(b2.position, Vec2 { x: 21_901_680, y: 29_202_240 });
    assert_eq!(a2.velocity, Vec2 { x: -257_144, y: -3_342_858 });
    assert_eq!(b2.velocity, Vec2 { x: -697_144, y: 1_737_142 });
    assert_eq!((a2.mass, a2.radius, a2.color, a2.is_new), (a.mass, a.radius, a.color, a.is_new));
    assert_eq!((b2.mass, b2.radius, b2.color, b2.is_new), (b.mass, b.radius, b.color, b.is_new));
}

#[test]
fn resolved_particles_no_longer_overlap() {
    let places = [(1, 0), (0, -1), (3, 4), (-7, 2), (12, 16), (-9, -9), (19, 1), (0, 0)];
    let masses = [MASS_MIN, units(4), MASS_MAX];
    let mut collisions = 0;
    for &(x, y) in places.iter() {
        for &ma in masses.iter() {
            for &mb in masses.iter() {
                let a = body(ma, Vec2::new(123_456, -654_321), at(1, 2));
                let b = body(mb, a.position.add(Vec2::new(x * ONE + 7, y * ONE - 3)), at(-3, 1));
                let (a2, b2) = resolve(a, b);
                if 2 * b.position.sub(a.position).length() < a.radius + b.radius {
                    collisions += 1;
                    assert!(a2.position != a.position);
                } else {
                    assert_eq!((a2, b2), (a, b));
                }
                let apart = b2.position.sub(a2.position).length();
                assert!(2 * apart + 9 >= a.radius + b.radius);
                assert!(as_real(apart) >= as_real(a.radius + b.radius) / 2.0 - 1e-5);
                if a2.position != a.position {
                    let old = b.position.sub(a.position).length();
                    let expected = a.radius + b.radius - old;
                    assert!(expected - 5 <= apart && apart <= expected + 6);
                    assert_eq!(a2.position.add(b2.position), a.position.add(b.position));
                }
            }
        }
    }
    assert!(collisions >= 40);
}

#[test]
fn returned_velocities_keep_momentum_and_energy_along_the_normal() {
    let cases = [
        (units(10), units(1), at(40, 3), at(10, -2), at(13, 17)),
        (units(10), units(10), at(40, -40), at(-35, 12), at(3, 1)),
        (units(2), units(5), at(3, 1), at(-2, 0), at(12, 16)),
        (units(16), HALF, at(-7, 9), at(25, -30), at(-20, 3)),
        (units(1), units(1), at(5, 0), at(0, 0), at(10, 0)),
        (units(3), units(7), at(-1, -1), at(2, 40), at(1, -1)),
        (units(9), units(4), at(20, 5), at(-8, 1), Vec2 { x: 7, y: -3 }),
        (units(10), units(10), at(-30, 30), at(11, 2), Vec2 { x: -1, y: 2 }),
        (units(1), units(10), at(0, 17), at(3, -3), Vec2 { x: 0, y: 999 }),
    ];
    for &(ma, mb, va, vb, apart) in cases.iter() {
        let a = body(ma, at(-3, 4), va);
        let b = body(mb, a.position.add(apart), vb);
        let unit = b.position.sub(a.position).direction_of();
        let (a2, b2) = resolve(a, b);
        assert!(a2.position != a.position);
        let before_a = decompose(a.velocity, unit);
        let before_b = decompose(b.velocity, unit);
        let after_a = decompose(a2.velocity, unit);
        let after_b = decompose(b2.velocity, unit);
        let (ma, mb) = (ma as i128, mb as i128);
        let (na, nb) = (before_a.normal as i128, before_b.normal as i128);
        let (wa, wb) = (after_a.normal as i128, after_b.normal as i128);
        let fine = FINE as i128;
        let speed = na.abs() + nb.abs();
        // Momentum.
        let before = ma * na + mb * nb;
        let later = ma * wa + mb * wb;
        let slack = (ma + mb) * (24 * speed + 4 * fine);
        assert!((fine * (before - later)).abs() <= slack);
        assert!(((before - later) as f64 / (ONE as f64 * ONE as f64)).abs() < 1e-4);
        // The velocity of one against the other.
        assert!((fine * ((wb - wa) + (nb - na))).abs() <= 2 * (3 * fine + 24 * speed));
        assert!(((wb - wa) + (nb - na)).abs() <= 6);
        // Energy.
        let energy_before = (ma * na * na + mb * nb * nb) as f64;
        let energy_later = (ma * wa * wa + mb * wb * wb) as f64;
        let (ea, eb) = exchange(ma as i64, mb as i64, before_a, before_b);
        let (sa, sb) = ((ea.normal as f64).abs(), (eb.normal as f64).abs());
        let (ra, rb) = (3.0 * fine as f64 + 8.0 * sa, 3.0 * fine as f64 + 8.0 * sb);
        let energy_slack = ma as f64 * ra * (2.0 * fine as f64 * sa + ra)
            + mb as f64 * rb * (2.0 * fine as f64 * sb + rb)
            + fine as f64 * fine as f64 * (2.0 * (ma as f64 * sa + mb as f64 * sb) + (ma + mb) as f64);
        assert!((fine as f64 * fine as f64 * (energy_before - energy_later)).abs() <= energy_slack);
        let scale = ONE as f64 * ONE as f64 * ONE as f64;
        assert!(((energy_before - energy_later) / scale).abs() < 5e-3);
        // Across the normal.
        let (ta, tb) = (before_a.tangent as i128, before_b.tangent as i128);
        let (ua, ub) = (after_a.tangent as i128, after_b.tangent as i128);
        assert!((fine * (ua - ta)).abs() <= 3 * fine + 8 * ta.abs());
        assert!((fine * (ub - tb)).abs() <= 3 * fine + 8 * tb.abs());
        assert!((ua - ta).abs() <= 3 && (ub - tb).abs() <= 3);
    }
}
