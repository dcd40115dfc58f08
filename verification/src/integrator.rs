//! One frame of motion for one particle: the launch after a drag, the step of
//! velocity and position, and the bounce off the walls of the viewport.

use vstd::prelude::*;
use crate::fixed::{clamp, div_fixed, div_floor, lemma_sqrt_floor_unique, mul_fixed, LIMIT, ONE};
use crate::particle::{lemma_radius_bounds, Particle};
use crate::vector::Vec2;

verus! {

/// The width of the viewport.
pub const WINDOW_WIDTH: i64 = 1_000_000_000;

/// The height of the viewport.
pub const WINDOW_HEIGHT: i64 = 800_000_000;

/// The length of the viewport's diagonal.
pub const MAX_SCREEN_DIAGONAL: i64 = 1_280_624_847;

/// The speed given by a drag as long as the viewport's diagonal.
pub const STRENGTH_FACTOR: i64 = 40_000_000;

/// How far from the centre of the viewport a particle of the given radius
/// gets along an axis of the given extent.
pub open spec fn wall_bound(extent: int, radius: int) -> int {
    (extent - radius) / 2
}

/// The velocity along one axis after the walls at `-bound` and `bound` were
/// applied to the position `p`: reversed if `p` lies beyond a wall.
pub open spec fn bounced_velocity(p: int, v: int, bound: int) -> int {
    if -bound <= p <= bound {
        v
    } else {
        -v
    }
}

/// The length of the vector from one corner of the viewport to the opposite one.
pub open spec fn screen_diagonal() -> int {
    (Vec2 { x: WINDOW_WIDTH, y: WINDOW_HEIGHT }).norm()
}

/// The speed of the launch for a drag of the given length: the part that the
/// length is of the diagonal, times `STRENGTH_FACTOR`.
pub open spec fn launch_strength(length: int) -> int {
    mul_fixed(div_fixed(length, screen_diagonal()), STRENGTH_FACTOR as int)
}

/// The velocity that a particle at `position` gets from a drag that ended at `drag_end`.
pub open spec fn launch_velocity(position: Vec2, drag_end: Vec2) -> Vec2 {
    let direction = drag_end.difference(position);
    direction.unit().scaled(launch_strength(direction.norm()))
}

/// `MAX_SCREEN_DIAGONAL` is the length of the viewport's diagonal.
pub proof fn lemma_max_screen_diagonal()
    ensures
        MAX_SCREEN_DIAGONAL == screen_diagonal(),
{
    let n = (Vec2 { x: WINDOW_WIDTH, y: WINDOW_HEIGHT }).norm_squared();
    assert(n == 1_640_000_000_000_000_000) by (nonlinear_arith)
        requires
            n == 1_000_000_000 * 1_000_000_000 + 800_000_000 * 800_000_000,
    ;
    assert(1_280_624_847 * 1_280_624_847 == 1_639_999_998_753_773_409) by (nonlinear_arith);
    assert(1_280_624_848 * 1_280_624_848 == 1_640_000_001_315_023_104) by (nonlinear_arith);
    lemma_sqrt_floor_unique(n, 1_280_624_847);
}

impl Particle {
    /// The particle after the launch rule: a new particle rests while the
    /// pointer is down, and is launched toward `drag_end` once it is up.
    pub open spec fn aimed(self, pressed: bool, drag_end: Vec2) -> Particle {
        if !self.is_new {
            self
        } else if pressed {
            Particle { velocity: Vec2::origin(), ..self }
        } else {
            Particle {
                is_new: false,
                velocity: launch_velocity(self.position, drag_end),
                ..self
            }
        }
    }

    /// The particle after one step of motion: the acceleration is added to the
    /// velocity, then the velocity to the position.
    pub open spec fn moved(self) -> Particle {
        let velocity = self.velocity.sum(self.acceleration);
        Particle { velocity, position: self.position.sum(velocity), ..self }
    }

    /// How far from the centre this particle gets along the horizontal axis.
    pub open spec fn bound_x(self) -> int {
        wall_bound(WINDOW_WIDTH as int, self.radius as int)
    }

    /// How far from the centre this particle gets along the vertical axis.
    pub open spec fn bound_y(self) -> int {
        wall_bound(WINDOW_HEIGHT as int, self.radius as int)
    }

    /// The particle after the walls were applied: along each axis, a position
    /// beyond a wall is set onto the wall and the velocity is reversed.
    pub open spec fn bounced(self) -> Particle {
        Particle {
            position: Vec2 {
                x: clamp(self.position.x as int, -self.bound_x(), self.bound_x()) as i64,
                y: clamp(self.position.y as int, -self.bound_y(), self.bound_y()) as i64,
            },
            velocity: Vec2 {
                x: bounced_velocity(
                    self.position.x as int,
                    self.velocity.x as int,
                    self.bound_x(),
                ) as i64,
                y: bounced_velocity(
                    self.position.y as int,
                    self.velocity.y as int,
                    self.bound_y(),
                ) as i64,
            },
            ..self
        }
    }

    /// The particle after one frame: launch rule, motion, walls.
    pub open spec fn integrated(self, pressed: bool, drag_end: Vec2) -> Particle {
        self.aimed(pressed, drag_end).moved().bounced()
    }

    /// The particle is no larger than the viewport, so that each pair of
    /// walls leaves room for it.
    pub open spec fn fits_viewport(self) -> bool {
        self.radius <= WINDOW_WIDTH && self.radius <= WINDOW_HEIGHT
    }

    /// The particle lies between the walls along both axes.
    pub open spec fn within_walls(self) -> bool {
        &&& -self.bound_x() <= self.position.x <= self.bound_x()
        &&& -self.bound_y() <= self.position.y <= self.bound_y()
    }

    /// The particle lies between the walls, if it is no larger than the viewport.
    pub open spec fn contained(self) -> bool {
        self.fits_viewport() ==> self.within_walls()
    }

    /// The launch rule: a new particle rests while the pointer is down, and is
    /// launched toward `drag_end` once it is up.
    pub fn aim(&mut self, pressed: bool, drag_end: Vec2)
        requires
            old(self).wf(),
            drag_end.wf(),
        ensures
            *final(self) == old(self).aimed(pressed, drag_end),
            final(self).wf(),
    {
        if pressed && self.is_new {
            self.velocity = Vec2::zero();
        }
        if !pressed && self.is_new {
            self.is_new = false;
            let direction = drag_end.sub(self.position);
            let length: i64 = direction.length();
            proof {
                lemma_max_screen_diagonal();
            }
            let ratio: i128 = div_floor(length as i128 * ONE as i128, MAX_SCREEN_DIAGONAL as i128);
            assert(0 <= ratio <= 2 * LIMIT) by (nonlinear_arith)
                requires
                    0 <= length <= 2 * LIMIT,
                    ratio == (length * ONE) / (MAX_SCREEN_DIAGONAL as int),
                    ONE == 1_000_000,
                    MAX_SCREEN_DIAGONAL == 1_280_624_847,
            ;
            let factor: i128 = STRENGTH_FACTOR as i128;
            let strength: i128 = div_floor(ratio * factor, ONE as i128);
            self.velocity = direction.normalize().scale(strength as i64);
        }
    }

    /// One step of motion: the acceleration is added to the velocity, then the
    /// velocity to the position.
    pub fn advance(&mut self)
        ensures
            *final(self) == old(self).moved(),
            old(self).wf() ==> final(self).wf(),
    {
        self.velocity = self.velocity.add(self.acceleration);
        self.position = self.position.add(self.velocity);
    }

    /// The walls: along each axis, a position beyond a wall is set onto the
    /// wall and the velocity is reversed. Afterwards a particle that is no
    /// larger than the viewport lies between the walls.
    pub fn bounce(&mut self)
        requires
            old(self).wf(),
        ensures
            *final(self) == old(self).bounced(),
            final(self).wf(),
            final(self).contained(),
    {
        proof {
            lemma_radius_bounds(self.mass as int);
        }
        let window_x_max: i64 = div_floor((WINDOW_WIDTH - self.radius) as i128, 2) as i64;
        let window_x_min: i64 = -window_x_max;
        let window_y_max: i64 = div_floor((WINDOW_HEIGHT - self.radius) as i128, 2) as i64;
        let window_y_min: i64 = -window_y_max;
        if self.position.x < window_x_min {
            self.velocity.x = -self.velocity.x;
            self.position.x = window_x_min;
        } else if self.position.x > window_x_max {
            self.velocity.x = -self.velocity.x;
            self.position.x = window_x_max;
        }
        if self.position.y < window_y_min {
            self.velocity.y = -self.velocity.y;
            self.position.y = window_y_min;
        } else if self.position.y > window_y_max {
            self.velocity.y = -self.velocity.y;
            self.position.y = window_y_max;
        }
    }

    /// One frame: launch rule, motion, walls. Afterwards a particle that is
    /// no larger than the viewport lies between the walls.
    pub fn integrate(&mut self, pressed: bool, drag_end: Vec2)
        requires
            old(self).wf(),
            drag_end.wf(),
        ensures
            *final(self) == old(self).integrated(pressed, drag_end),
            final(self).wf(),
            final(self).contained(),
    {
        self.aim(pressed, drag_end);
        self.advance();
        self.bounce();
    }
}

} // verus!
