//! The simulated body: a disc whose size follows from its mass.

use vstd::prelude::*;
use crate::fixed::{
    clamp, isqrt, lemma_sqrt_floor_exists, lemma_sqrt_floor_monotonic, lemma_sqrt_floor_unique,
    sqrt_fixed, sqrt_floor, HALF, LIMIT, ONE,
};
use crate::vector::Vec2;

verus! {

/// The largest mass of a particle: the one whose radius is `LIMIT`.
pub const MASS_LIMIT: i64 = 2_500_000_000_000_000;

/// The smallest mass that is drawn for a spawned particle.
pub const MASS_MIN: i64 = 1_000_000;

/// The bound under which the mass of a spawned particle is drawn.
pub const MASS_MAX: i64 = 10_000_000;

/// The radius of a particle of mass one, in whole units.
pub const RADIUS_FACTOR: i64 = 20;

/// The radius of a particle of mass `MASS_MAX`.
pub const RADIUS_MAX: i64 = 63_245_540;

/// A colour with red, green, blue and alpha channels, each a scalar between
/// zero and `ONE`.
#[derive(Clone, Copy, Debug, PartialEq, Eq, Structural)]
pub struct Srgba {
    pub red: i64,
    pub green: i64,
    pub blue: i64,
    pub alpha: i64,
}

/// What is drawn for one particle: an ellipse around a centre.
#[derive(Clone, Copy, Debug, PartialEq, Eq, Structural)]
pub struct Ellipse {
    pub width: i64,
    pub height: i64,
    pub xy: Vec2,
    pub color: Srgba,
}

/// A disc with a mass, a place and a motion.
#[derive(Clone, Copy, Debug, PartialEq, Eq, Structural)]
pub struct Particle {
    pub mass: i64,
    pub radius: i64,
    pub position: Vec2,
    pub velocity: Vec2,
    pub acceleration: Vec2,
    pub color: Srgba,
    pub is_new: bool,
}

/// The radius of a particle of the given mass: `RADIUS_FACTOR` times the
/// square root of the mass.
pub open spec fn radius_of(mass: int) -> int {
    RADIUS_FACTOR * sqrt_fixed(mass)
}

/// A pastel channel: the mean of a sample between zero and `ONE` and `ONE` itself.
pub open spec fn pastel_channel(sample: int) -> int {
    (clamp(sample, 0, ONE as int) + ONE) / 2
}

/// The radius of a positive mass up to `MASS_LIMIT` is at least a fiftieth
/// of a unit and at most `LIMIT`.
pub proof fn lemma_radius_bounds(mass: int)
    requires
        0 < mass <= MASS_LIMIT,
    ensures
        20_000 <= radius_of(mass) <= LIMIT,
{
    assert(1_000 * 1_000 == 1_000_000) by (nonlinear_arith);
    assert(1_001 * 1_001 == 1_002_001) by (nonlinear_arith);
    assert(50_000_000_000 * 50_000_000_000 == 2_500_000_000_000_000_000_000int)
        by (nonlinear_arith);
    assert(50_000_000_001 * 50_000_000_001 == 2_500_000_000_100_000_000_001int)
        by (nonlinear_arith);
    lemma_sqrt_floor_unique(1_000_000, 1_000);
    lemma_sqrt_floor_unique(2_500_000_000_000_000_000_000int, 50_000_000_000);
    lemma_sqrt_floor_monotonic(1_000_000, mass * ONE);
    lemma_sqrt_floor_monotonic(mass * ONE, 2_500_000_000_000_000_000_000int);
}

/// The radius of a mass between `MASS_MIN` and `MASS_MAX` lies between 20
/// units and `RADIUS_MAX`.
pub proof fn lemma_radius_of_drawn_mass(mass: int)
    requires
        MASS_MIN <= mass <= MASS_MAX,
    ensures
        RADIUS_FACTOR * ONE <= radius_of(mass) <= RADIUS_MAX,
{
    assert(1_000_000 * 1_000_000 == 1_000_000_000_000) by (nonlinear_arith);
    assert(1_000_001 * 1_000_001 == 1_000_002_000_001) by (nonlinear_arith);
    assert(3_162_277 * 3_162_277 == 9_999_995_824_729) by (nonlinear_arith);
    assert(3_162_278 * 3_162_278 == 10_000_002_149_284) by (nonlinear_arith);
    lemma_sqrt_floor_unique(MASS_MIN * ONE, 1_000_000);
    lemma_sqrt_floor_unique(MASS_MAX * ONE, 3_162_277);
    lemma_sqrt_floor_monotonic(MASS_MIN * ONE, mass * ONE);
    lemma_sqrt_floor_monotonic(mass * ONE, MASS_MAX * ONE);
}

/// A larger mass has no smaller radius.
pub proof fn lemma_radius_monotonic(smaller: int, larger: int)
    requires
        0 <= smaller <= larger,
    ensures
        radius_of(smaller) <= radius_of(larger),
{
    lemma_sqrt_floor_monotonic(smaller * ONE, larger * ONE);
}

/// A mass that reaches the square of the next root has a larger radius.
pub proof fn lemma_radius_strictly_monotonic(smaller: int, larger: int)
    requires
        0 <= smaller,
        (sqrt_fixed(smaller) + 1) * (sqrt_fixed(smaller) + 1) <= larger * ONE,
    ensures
        radius_of(smaller) < radius_of(larger),
{
    lemma_sqrt_floor_exists(smaller * ONE);
    lemma_sqrt_floor_exists(larger * ONE);
    let s = sqrt_fixed(smaller);
    let t = sqrt_fixed(larger);
    assert(s < t) by (nonlinear_arith)
        requires
            0 <= s,
            0 <= t,
            (s + 1) * (s + 1) <= larger * ONE,
            larger * ONE < (t + 1) * (t + 1),
    ;
}

/// Four times the mass gives twice the radius, up to the rounding of the
/// root, which adds at most `RADIUS_FACTOR`.
pub proof fn lemma_radius_of_fourfold_mass(mass: int)
    requires
        0 <= mass,
    ensures
        2 * radius_of(mass) <= radius_of(4 * mass) <= 2 * radius_of(mass) + RADIUS_FACTOR,
{
    let n = mass * ONE;
    lemma_sqrt_floor_exists(n);
    lemma_sqrt_floor_exists(4 * n);
    let s = sqrt_floor(n);
    let t = sqrt_floor(4 * n);
    assert(2 * s <= t <= 2 * s + 1) by (nonlinear_arith)
        requires
            0 <= s,
            0 <= t,
            s * s <= n < (s + 1) * (s + 1),
            t * t <= 4 * n < (t + 1) * (t + 1),
    ;
    assert((4 * mass) * ONE == 4 * n);
}

impl Srgba {
    /// Opaque white.
    pub open spec fn white() -> Srgba {
        Srgba { red: ONE, green: ONE, blue: ONE, alpha: ONE }
    }

    /// The half-transparent pastel colour made from three samples.
    pub open spec fn pastel_of(red: int, green: int, blue: int) -> Srgba {
        Srgba {
            red: pastel_channel(red) as i64,
            green: pastel_channel(green) as i64,
            blue: pastel_channel(blue) as i64,
            alpha: HALF,
        }
    }

    /// The colour with the given channels.
    pub fn new(red: i64, green: i64, blue: i64, alpha: i64) -> (c: Srgba)
        ensures
            c == (Srgba { red, green, blue, alpha }),
    {
        Srgba { red, green, blue, alpha }
    }

    /// The half-transparent pastel colour made from three samples: each
    /// channel lies in the upper half of its range.
    pub fn pastel(red: i64, green: i64, blue: i64) -> (c: Srgba)
        ensures
            c == Srgba::pastel_of(red as int, green as int, blue as int),
            HALF <= c.red <= ONE,
            HALF <= c.green <= ONE,
            HALF <= c.blue <= ONE,
    {
        Srgba {
            red: pastel_from(red),
            green: pastel_from(green),
            blue: pastel_from(blue),
            alpha: HALF,
        }
    }
}

/// A pastel channel: the mean of a sample between zero and `ONE` and `ONE` itself.
fn pastel_from(sample: i64) -> (c: i64)
    ensures
        c == pastel_channel(sample as int),
        HALF <= c <= ONE,
{
    let s: i64 = if sample < 0 {
        0
    } else if sample > ONE {
        ONE
    } else {
        sample
    };
    (s + ONE) / 2
}

impl Particle {
    /// The mass is positive and at most `MASS_LIMIT`, the radius follows from
    /// the mass, and the three vectors are well formed.
    pub open spec fn wf(self) -> bool {
        &&& 0 < self.mass <= MASS_LIMIT
        &&& self.radius == radius_of(self.mass as int)
        &&& self.position.wf()
        &&& self.velocity.wf()
        &&& self.acceleration.wf()
    }

    /// The ellipse that shows this particle.
    pub open spec fn shape(self) -> Ellipse {
        Ellipse { width: self.radius, height: self.radius, xy: self.position, color: self.color }
    }

    /// A new white particle of the given mass. A mass that is not positive
    /// is replaced by the smallest positive mass, and one above `MASS_LIMIT`
    /// by `MASS_LIMIT`.
    pub fn new(mass: i64, position: Vec2, velocity: Vec2, acceleration: Vec2) -> (p: Particle)
        requires
            position.wf(),
            velocity.wf(),
            acceleration.wf(),
        ensures
            0 < mass <= MASS_LIMIT ==> p.mass == mass,
            p.mass == clamp(mass as int, 1, MASS_LIMIT as int),
            p.radius == radius_of(p.mass as int),
            0 < p.radius,
            p.position == position,
            p.velocity == velocity,
            p.acceleration == acceleration,
            p.color == Srgba::white(),
            p.is_new,
            p.wf(),
    {
        let mass: i64 = if mass < 1 {
            1
        } else if mass > MASS_LIMIT {
            MASS_LIMIT
        } else {
            mass
        };
        proof {
            lemma_radius_bounds(mass as int);
            lemma_sqrt_floor_exists(mass * ONE);
        }
        let root: u64 = isqrt(mass as u128 * ONE as u128);
        let radius: i64 = RADIUS_FACTOR * (root as i64);
        let color = Srgba { red: ONE, green: ONE, blue: ONE, alpha: ONE };
        let is_new = true;
        Particle { mass, radius, position, velocity, acceleration, color, is_new }
    }

    /// The ellipse that shows this particle: as wide and as high as the
    /// radius, around the position, in the particle's colour.
    pub fn display(&self) -> (e: Ellipse)
        ensures
            e == self.shape(),
    {
        Ellipse { width: self.radius, height: self.radius, xy: self.position, color: self.color }
    }
}

} // verus!
