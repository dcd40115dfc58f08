//! The state of the simulation and what a pointer event and a frame do to it.

use vstd::prelude::*;
use crate::collision::{colliding, resolve, resolved};
use crate::fixed::{HALF, ONE};
use crate::particle::{
    pastel_channel, radius_of, Ellipse, Particle, Srgba, MASS_LIMIT, MASS_MAX, MASS_MIN,
};
use crate::vector::Vec2;

verus! {

/// The weight of the arrow that shows the drag.
pub const ARROW_WEIGHT: i64 = 5_000_000;

/// A button of the pointer.
#[derive(Clone, Copy, Debug, PartialEq, Eq, Structural)]
pub enum MouseButton {
    Left,
    Right,
    Middle,
    Other,
}

/// What the window reports.
#[derive(Clone, Copy, Debug, PartialEq, Eq, Structural)]
pub enum WindowEvent {
    MousePressed(MouseButton),
    MouseReleased(MouseButton),
    Other,
}

/// The state of the drag: whether the left button is down, where it went
/// down, and where the pointer was when it was last seen down or released.
#[derive(Clone, Copy, Debug, PartialEq, Eq, Structural)]
pub struct Settings {
    pub is_mouse_pressed: bool,
    pub mouse_start_position: Vec2,
    pub mouse_end_position: Vec2,
}

/// The particles, in the order in which they were spawned, and the drag.
pub struct Model {
    pub particles: Vec<Particle>,
    pub settings: Settings,
}

/// The arrow from the last particle to the end of the drag.
#[derive(Clone, Copy, Debug, PartialEq, Eq, Structural)]
pub struct Arrow {
    pub weight: i64,
    pub start: Vec2,
    pub end: Vec2,
}

/// What a frame shows: a background, one ellipse for each particle, and the
/// arrow while the pointer is down.
pub struct Scene {
    pub background: Srgba,
    pub ellipses: Vec<Ellipse>,
    pub arrow: Option<Arrow>,
}

/// Every particle of the sequence is well formed.
pub open spec fn all_wf(ps: Seq<Particle>) -> bool {
    forall|i: int| 0 <= i < ps.len() ==> (#[trigger] ps[i]).wf()
}

/// Every particle of the sequence that is no larger than the viewport lies
/// between the walls.
pub open spec fn all_contained(ps: Seq<Particle>) -> bool {
    forall|i: int| 0 <= i < ps.len() ==> (#[trigger] ps[i]).contained()
}

/// The particle that a press of the left button spawns at `position`, given
/// the mass and the three colour samples that were drawn for it.
pub open spec fn spawned(mass: int, position: Vec2, red: int, green: int, blue: int) -> Particle {
    let mass = crate::fixed::clamp(mass, 1, MASS_LIMIT as int);
    Particle {
        mass: mass as i64,
        radius: radius_of(mass) as i64,
        position,
        velocity: Vec2::origin(),
        acceleration: Vec2::origin(),
        color: Srgba::pastel_of(red, green, blue),
        is_new: true,
    }
}

/// The particles after each went through one frame of motion.
pub open spec fn integrated_all(ps: Seq<Particle>, pressed: bool, drag_end: Vec2) -> Seq<Particle> {
    Seq::new(ps.len(), |i: int| ps[i].integrated(pressed, drag_end))
}

/// The particles after the collision of the pair at `i` and `j` was resolved.
pub open spec fn resolved_pair(ps: Seq<Particle>, i: int, j: int) -> Seq<Particle> {
    let after = resolved(ps[i], ps[j]);
    ps.update(i, after.0).update(j, after.1)
}

/// The particles after the particle at `i` was resolved, one after the other,
/// against those at `i + 1` up to, and without, `j`.
pub open spec fn resolved_row(ps: Seq<Particle>, i: int, j: int) -> Seq<Particle>
    decreases j - i,
{
    if j <= i + 1 {
        ps
    } else {
        resolved_pair(resolved_row(ps, i, j - 1), i, j - 1)
    }
}

/// The particles after each of the first `i` was resolved against all that
/// follow it, the earlier particle first.
pub open spec fn resolved_rows(ps: Seq<Particle>, i: int) -> Seq<Particle>
    decreases i,
{
    if i <= 0 {
        ps
    } else {
        let before = resolved_rows(ps, i - 1);
        resolved_row(before, i - 1, before.len() as int)
    }
}

/// The particles after every pair was resolved once: each pair with the
/// earlier particle first, in the order of the earlier and then of the later
/// particle, each resolution working on what the ones before it left.
pub open spec fn resolved_all(ps: Seq<Particle>) -> Seq<Particle> {
    resolved_rows(ps, ps.len() as int)
}

/// No two particles of the sequence collide.
pub open spec fn collision_free(ps: Seq<Particle>) -> bool {
    forall|i: int, j: int| 0 <= i < j < ps.len() ==> !colliding(#[trigger] ps[i], #[trigger] ps[j])
}

/// Resolving one particle against particles that it does not collide with
/// changes nothing.
proof fn lemma_resolved_row_of_collision_free(ps: Seq<Particle>, i: int, j: int)
    requires
        collision_free(ps),
        0 <= i,
        j <= ps.len(),
    ensures
        resolved_row(ps, i, j) == ps,
    decreases j - i,
{
    if j > i + 1 {
        lemma_resolved_row_of_collision_free(ps, i, j - 1);
        assert(!colliding(ps[i], ps[j - 1]));
        assert(resolved_pair(ps, i, j - 1) =~= ps);
    }
}

/// Where no two particles collide, resolving the first `i` changes nothing.
proof fn lemma_resolved_rows_of_collision_free(ps: Seq<Particle>, i: int)
    requires
        collision_free(ps),
        i <= ps.len(),
    ensures
        resolved_rows(ps, i) == ps,
    decreases i,
{
    if i > 0 {
        lemma_resolved_rows_of_collision_free(ps, i - 1);
        lemma_resolved_row_of_collision_free(ps, i - 1, ps.len() as int);
    }
}

/// Where no two particles collide, resolving every pair changes nothing.
pub proof fn lemma_resolved_all_of_collision_free(ps: Seq<Particle>)
    requires
        collision_free(ps),
    ensures
        resolved_all(ps) == ps,
{
    lemma_resolved_rows_of_collision_free(ps, ps.len() as int);
}

/// `nannou::rand::random_range` on integers: a number drawn from the
/// thread's generator that is at least the smaller and less than the larger
/// of the two bounds. The bounds must differ, else the outside function
/// panics.
#[verifier::external_body]
fn random_range(min: i64, max: i64) -> (r: i64)
    requires
        min != max,
    ensures
        min < max ==> min <= r < max,
        max < min ==> max <= r < min,
{
    nannou::rand::random_range(min, max)
}

impl Settings {
    /// Both positions are well formed.
    pub open spec fn wf(self) -> bool {
        self.mouse_start_position.wf() && self.mouse_end_position.wf()
    }

    /// The state after the window reported `event` with the pointer at
    /// `position`: a press of the left button starts a drag there, a release
    /// of it ends the drag there, and nothing else changes anything.
    pub open spec fn after_event(self, position: Vec2, event: WindowEvent) -> Settings {
        match event {
            WindowEvent::MousePressed(MouseButton::Left) => Settings {
                is_mouse_pressed: true,
                mouse_start_position: position,
                ..self
            },
            WindowEvent::MouseReleased(MouseButton::Left) => Settings {
                is_mouse_pressed: false,
                mouse_end_position: position,
                ..self
            },
            _ => self,
        }
    }

    /// The state at the start of a frame with the pointer at `position`: the
    /// end of the drag follows the pointer while the button is down.
    pub open spec fn following(self, position: Vec2) -> Settings {
        if self.is_mouse_pressed {
            Settings { mouse_end_position: position, ..self }
        } else {
            self
        }
    }

    /// No drag, both positions at the origin.
    pub fn new() -> (s: Settings)
        ensures
            !s.is_mouse_pressed,
            s.mouse_start_position == Vec2::origin(),
            s.mouse_end_position == Vec2::origin(),
            s.wf(),
    {
        let is_mouse_pressed = false;
        let mouse_start_position = Vec2::zero();
        let mouse_end_position = Vec2::zero();
        Settings { is_mouse_pressed, mouse_start_position, mouse_end_position }
    }
}

impl Model {
    /// Every particle and the drag are well formed.
    pub open spec fn wf(&self) -> bool {
        all_wf(self.particles@) && self.settings.wf()
    }

    /// No particles and no drag.
    pub fn new() -> (m: Model)
        ensures
            m.particles@.len() == 0,
            !m.settings.is_mouse_pressed,
            m.settings.mouse_start_position == Vec2::origin(),
            m.settings.mouse_end_position == Vec2::origin(),
            m.wf(),
    {
        let settings = Settings::new();
        let particles = Vec::new();
        Model { particles, settings }
    }

    /// Appends the particle that a press spawns at `position`, with the given
    /// mass and colour samples: at rest, new, its radius following from the
    /// mass, in a half-transparent pastel colour.
    pub fn spawn(&mut self, mass: i64, position: Vec2, red: i64, green: i64, blue: i64)
        requires
            old(self).wf(),
            position.wf(),
        ensures
            final(self).particles@ == old(self).particles@.push(
                spawned(mass as int, position, red as int, green as int, blue as int),
            ),
            final(self).settings == old(self).settings,
            final(self).wf(),
    {
        let velocity = Vec2::zero();
        let acceleration = Vec2::zero();
        let mut particle = Particle::new(mass, position, velocity, acceleration);
        particle.color = Srgba::pastel(red, green, blue);
        self.particles.push(particle);
    }

    /// A press of a button with the pointer at `position`: the left button
    /// spawns a particle there, with a mass drawn from the range of masses
    /// and a colour drawn from the pastel range; another button does nothing.
    pub fn mouse_pressed(&mut self, mouse_button: MouseButton, position: Vec2)
        requires
            old(self).wf(),
            position.wf(),
        ensures
            final(self).settings == old(self).settings,
            final(self).wf(),
            mouse_button != MouseButton::Left ==> final(self).particles@ == old(self).particles@,
            mouse_button == MouseButton::Left ==> exists|
                mass: int,
                red: int,
                green: int,
                blue: int,
            |
                {
                    &&& MASS_MIN <= mass < MASS_MAX
                    &&& 0 <= red < ONE
                    &&& 0 <= green < ONE
                    &&& 0 <= blue < ONE
                    &&& final(self).particles@ == old(self).particles@.push(
                        #[trigger] spawned(mass, position, red, green, blue),
                    )
                },
    {
        if mouse_button == MouseButton::Left {
            let mass: i64 = random_range(MASS_MIN, MASS_MAX);
            let red: i64 = random_range(0, ONE);
            let green: i64 = random_range(0, ONE);
            let blue: i64 = random_range(0, ONE);
            self.spawn(mass, position, red, green, blue);
        }
    }

    /// What the window reports, with the pointer at `position`: a press of
    /// the left button starts a drag there, a release of it ends the drag
    /// there. The particles stay as they are.
    pub fn event(&mut self, position: Vec2, event: WindowEvent)
        requires
            old(self).wf(),
            position.wf(),
        ensures
            final(self).settings == old(self).settings.after_event(position, event),
            final(self).particles@ == old(self).particles@,
            final(self).wf(),
    {
        match event {
            WindowEvent::MousePressed(button) => {
                if button == MouseButton::Left {
                    self.settings.is_mouse_pressed = true;
                    self.settings.mouse_start_position = position;
                }
            },
            WindowEvent::MouseReleased(button) => {
                if button == MouseButton::Left {
                    self.settings.is_mouse_pressed = false;
                    self.settings.mouse_end_position = position;
                }
            },
            _ => (),
        }
    }

    /// One frame of motion for every particle: launch rule, motion, walls.
    /// Afterwards every particle that is no larger than the viewport lies
    /// between the walls.
    pub fn integrate(&mut self)
        requires
            old(self).wf(),
        ensures
            final(self).particles@ == integrated_all(
                old(self).particles@,
                old(self).settings.is_mouse_pressed,
                old(self).settings.mouse_end_position,
            ),
            final(self).settings == old(self).settings,
            final(self).wf(),
            all_contained(final(self).particles@),
    {
        let pressed = self.settings.is_mouse_pressed;
        let drag_end = self.settings.mouse_end_position;
        let n: usize = self.particles.len();
        let mut i: usize = 0;
        while i < n
            invariant
                i <= n,
                n == self.particles@.len(),
                n == old(self).particles@.len(),
                self.settings == old(self).settings,
                drag_end.wf(),
                self.settings.wf(),
                forall|k: int|
                    0 <= k < i ==> self.particles@[k] == (#[trigger] old(self).particles@[k]).integrated(
                        pressed,
                        drag_end,
                    ),
                forall|k: int| i <= k < n ==> self.particles@[k] == old(self).particles@[k],
                forall|k: int| 0 <= k < n ==> (#[trigger] self.particles@[k]).wf(),
                forall|k: int| 0 <= k < i ==> (#[trigger] self.particles@[k]).contained(),
            decreases n - i,
        {
            let mut particle: Particle = self.particles[i];
            particle.integrate(pressed, drag_end);
            self.particles.set(i, particle);
            i += 1;
        }
        assert(self.particles@ =~= integrated_all(old(self).particles@, pressed, drag_end));
    }

    /// Resolves the collision of every pair of particles once: each pair with
    /// the earlier particle first, in the order of the earlier and then of
    /// the later particle, each resolution working on what the ones before it
    /// left.
    pub fn resolve_collisions(&mut self)
        requires
            old(self).wf(),
        ensures
            final(self).particles@ == resolved_all(old(self).particles@),
            final(self).particles@.len() == old(self).particles@.len(),
            final(self).settings == old(self).settings,
            final(self).wf(),
    {
        let n: usize = self.particles.len();
        let mut i: usize = 0;
        while i < n
            invariant
                i <= n,
                n == self.particles@.len(),
                n == old(self).particles@.len(),
                self.settings == old(self).settings,
                self.particles@ == resolved_rows(old(self).particles@, i as int),
                all_wf(self.particles@),
            decreases n - i,
        {
            let ghost row_start = self.particles@;
            let mut j: usize = i + 1;
            while j < n
                invariant
                    i < j <= n,
                    n == self.particles@.len(),
                    n == row_start.len(),
                    self.settings == old(self).settings,
                    self.particles@ == resolved_row(row_start, i as int, j as int),
                    all_wf(self.particles@),
                decreases n - j,
            {
                let after = resolve(self.particles[i], self.particles[j]);
                self.particles.set(i, after.0);
                self.particles.set(j, after.1);
                j += 1;
            }
            proof {
                if i + 1 >= n {
                    assert(j == i + 1);
                }
                assert(self.particles@ == resolved_row(row_start, i as int, n as int));
            }
            i += 1;
        }
    }

    /// One frame with the pointer at `mouse_position`: the end of the drag
    /// follows the pointer while the button is down, every particle goes
    /// through one frame of motion, and then the collision of every pair is
    /// resolved. Where no two particles collide after their motion, every
    /// particle that is no larger than the viewport lies between the walls at
    /// the end of the frame.
    pub fn update(&mut self, mouse_position: Vec2)
        requires
            old(self).wf(),
            mouse_position.wf(),
        ensures
            final(self).settings == old(self).settings.following(mouse_position),
            final(self).particles@ == resolved_all(
                integrated_all(
                    old(self).particles@,
                    old(self).settings.is_mouse_pressed,
                    old(self).settings.following(mouse_position).mouse_end_position,
                ),
            ),
            final(self).particles@.len() == old(self).particles@.len(),
            final(self).wf(),
            collision_free(
                integrated_all(
                    old(self).particles@,
                    old(self).settings.is_mouse_pressed,
                    old(self).settings.following(mouse_position).mouse_end_position,
                ),
            ) ==> all_contained(final(self).particles@),
    {
        if self.settings.is_mouse_pressed {
            self.settings.mouse_end_position = mouse_position;
        }
        self.integrate();
        proof {
            if collision_free(self.particles@) {
                lemma_resolved_all_of_collision_free(self.particles@);
            }
        }
        self.resolve_collisions();
    }

    /// What the frame shows: a black background, the ellipse of every
    /// particle in order, and, while the button is down and there is a
    /// particle, the arrow from the last particle to the end of the drag.
    pub fn view(&self) -> (scene: Scene)
        ensures
            scene.background == (Srgba { red: 0, green: 0, blue: 0, alpha: ONE }),
            scene.ellipses@.len() == self.particles@.len(),
            forall|i: int|
                0 <= i < self.particles@.len() ==> scene.ellipses@[i] == (
                #[trigger] self.particles@[i]).shape(),
            scene.arrow == if self.settings.is_mouse_pressed && self.particles@.len() > 0 {
                Some(
                    Arrow {
                        weight: ARROW_WEIGHT,
                        start: self.particles@.last().position,
                        end: self.settings.mouse_end_position,
                    },
                )
            } else {
                None
            },
    {
        let n: usize = self.particles.len();
        let mut ellipses: Vec<Ellipse> = Vec::new();
        let mut i: usize = 0;
        while i < n
            invariant
                i <= n,
                n == self.particles@.len(),
                ellipses@.len() == i,
                forall|k: int| 0 <= k < i ==> ellipses@[k] == (#[trigger] self.particles@[k]).shape(),
            decreases n - i,
        {
            ellipses.push(self.particles[i].display());
            i += 1;
        }
        let arrow = if self.settings.is_mouse_pressed && n > 0 {
            Some(
                Arrow {
                    weight: ARROW_WEIGHT,
                    start: self.particles[n - 1].position,
                    end: self.settings.mouse_end_position,
                },
            )
        } else {
            None
        };
        Scene { background: Srgba { red: 0, green: 0, blue: 0, alpha: ONE }, ellipses, arrow }
    }
}

} // verus!
