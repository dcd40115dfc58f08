use particle_sim::fixed::{HALF, ONE};
use particle_sim::model::{Arrow, Model, MouseButton, Settings, WindowEvent, ARROW_WEIGHT};
use particle_sim::particle::{Srgba, MASS_MAX, MASS_MIN};
use particle_sim::vector::Vec2;

fn units(x: i64) -> i64 {
    x * ONE
}

fn at(x: i64, y: i64) -> Vec2 {
    Vec2::new(units(x), units(y))
}

#[test]
fn new_model_is_empty_and_idle() {
    let m = Model::new();
    assert!(m.particles.is_empty());
    assert_eq!(m.settings, Settings::new());
    assert!(!m.settings.is_mouse_pressed);
    assert_eq!(m.settings.mouse_start_position, Vec2::zero());
    assert_eq!(m.settings.mouse_end_position, Vec2::zero());
}

#[test]
fn spawn_appends_a_resting_pastel_particle() {
    let mut m = Model::new();
    m.spawn(units(4), at(10, 20), 0, HALF, ONE);
    m.spawn(units(1), at(-1, -2), 1, 2, 3);
    assert_eq!(m.particles.len(), 2);
    let p = m.particles[0];
    assert_eq!(p.mass, units(4));
    assert_eq!(p.radius, units(40));
    assert_eq!(p.position, at(10, 20));
    assert_eq!(p.velocity, Vec2::zero());
    assert_eq!(p.acceleration, Vec2::zero());
    assert_eq!(p.color, Srgba::new(500_000, 750_000, ONE, HALF));
    assert!(p.is_new);
    assert_eq!(m.particles[1].position, at(-1, -2));
}

#[test]
fn spawn_keeps_every_positive_mass() {
    let mut m = Model::new();
    m.spawn(units(16), at(0, 0), 0, 0, 0);
    m.spawn(HALF, at(200, 0), 0, 0, 0);
    m.spawn(0, at(-200, 0), 0, 0, 0);
    assert_eq!(m.particles[0].mass, units(16));
    assert_eq!(m.particles[0].radius, units(80));
    assert_eq!(m.particles[1].mass, HALF);
    assert_eq!(m.particles[1].radius, 14_142_120);
    assert_eq!(m.particles[2].mass, 1);
    assert_eq!(m.particles[2].radius, 20_000);
}

#[test]
fn press_of_the_left_button_spawns_a_random_particle() {
    let mut m = Model::new();
    for i in 0..40 {
        m.mouse_pressed(MouseButton::Left, at(i, -i));
    }
    assert_eq!(m.particles.len(), 40);
    for (i, p) in m.particles.iter().enumerate() {
        assert!(MASS_MIN <= p.mass && p.mass < MASS_MAX);
        assert!(HALF <= p.color.red && p.color.red < ONE);
        assert!(HALF <= p.color.green && p.color.green < ONE);
        assert!(HALF <= p.color.blue && p.color.blue < ONE);
        assert_eq!(p.color.alpha, HALF);
        assert_eq!(p.position, at(i as i64, -(i as i64)));
        assert_eq!(p.velocity, Vec2::zero());
        assert!(p.is_new);
    }
    // The draws differ from the bounds they were asked between.
    assert!(m.particles.iter().any(|p| p.mass != MASS_MIN));
    assert!(m.particles.iter().any(|p| p.color.red != HALF));
    assert!(m.particles.iter().any(|p| p.mass != m.particles[0].mass));
}

#[test]
fn press_of_another_button_spawns_nothing() {
    let mut m = Model::new();
    m.mouse_pressed(MouseButton::Right, at(1, 1));
    m.mouse_pressed(MouseButton::Middle, at(1, 1));
    m.mouse_pressed(MouseButton::Other, at(1, 1));
    assert!(m.particles.is_empty());
}

#[test]
fn events_start_and_end_the_drag() {
    let mut m = Model::new();
    m.event(at(3, 4), WindowEvent::MousePressed(MouseButton::Left));
    assert!(m.settings.is_mouse_pressed);
    assert_eq!(m.settings.mouse_start_position, at(3, 4));
    assert_eq!(m.settings.mouse_end_position, Vec2::zero());
    m.update(at(5, 6));
    assert_eq!(m.settings.mouse_end_position, at(5, 6));
    m.event(at(9, 9), WindowEvent::MouseReleased(MouseButton::Left));
    assert!(!m.settings.is_mouse_pressed);
    assert_eq!(m.settings.mouse_start_position, at(3, 4));
    assert_eq!(m.settings.mouse_end_position, at(9, 9));
    m.update(at(50, 60));
    assert_eq!(m.settings.mouse_end_position, at(9, 9));
}

#[test]
fn other_events_change_nothing() {
    let mut m = Model::new();
    m.event(at(3, 4), WindowEvent::MousePressed(MouseButton::Right));
    m.event(at(3, 4), WindowEvent::MouseReleased(MouseButton::Middle));
    m.event(at(3, 4), WindowEvent::Other);
    assert_eq!(m.settings, Settings::new());
    m.event(at(1, 1), WindowEvent::MousePressed(MouseButton::Left));
    m.event(at(3, 4), WindowEvent::MouseReleased(MouseButton::Right));
    assert!(m.settings.is_mouse_pressed);
    assert_eq!(m.settings.mouse_end_position, Vec2::zero());
}

#[test]
fn drag_and_release_launches_the_particle() {
    let mut m = Model::new();
    m.event(at(0, 0), WindowEvent::MousePressed(MouseButton::Left));
    m.spawn(units(1), at(0, 0), 0, 0, 0);
    m.update(at(40, 0));
    m.update(at(100, 0));
    assert!(m.particles[0].is_new);
    assert_eq!(m.particles[0].position, at(0, 0));
    assert_eq!(m.particles[0].velocity, Vec2::zero());
    m.event(at(100, 0), WindowEvent::MouseReleased(MouseButton::Left));
    m.update(at(200, 200));
    assert!(!m.particles[0].is_new);
    assert_eq!(m.particles[0].velocity, Vec2 { x: 3_123_440, y: 0 });
    assert_eq!(m.particles[0].position, Vec2 { x: 3_123_440, y: 0 });
    m.update(at(200, 200));
    assert_eq!(m.particles[0].position, Vec2 { x: 6_246_880, y: 0 });
}

#[test]
fn two_particles_collide_in_a_frame() {
    let mut m = Model::new();
    m.spawn(units(1), at(-10, 0), 0, 0, 0);
    m.spawn(units(1), at(5, 0), 0, 0, 0);
    m.particles[0].is_new = false;
    m.particles[0].velocity = at(5, 0);
    m.particles[1].is_new = false;
    // The first moves to -5, then the pair at -5 and 5 is resolved.
    m.update(at(0, 0));
    assert_eq!(m.particles[0].velocity, at(0, 0));
    assert_eq!(m.particles[1].velocity, at(5, 0));
    assert_eq!(m.particles[0].position, at(-15, 0));
    assert_eq!(m.particles[1].position, at(15, 0));
}

#[test]
fn two_particles_with_close_centres_collide_in_a_frame() {
    let mut m = Model::new();
    m.spawn(units(1), at(-1, 0), 0, 0, 0);
    m.spawn(units(1), Vec2 { x: 1, y: 1 }, 0, 0, 0);
    m.particles[0].is_new = false;
    m.particles[0].velocity = at(1, 0);
    m.particles[1].is_new = false;
    // The first moves to the origin; the centres are then one raw unit apart
    // along each axis.
    m.update(at(0, 0));
    assert_eq!(m.particles[0].velocity, Vec2 { x: 500_000, y: -500_001 });
    assert_eq!(m.particles[1].velocity, Vec2 { x: 499_999, y: 499_999 });
    assert_eq!(m.particles[0].position, Vec2 { x: -14_142_135, y: -14_142_135 });
    assert_eq!(m.particles[1].position, Vec2 { x: 14_142_136, y: 14_142_136 });
    let apart = m.particles[1].position.sub(m.particles[0].position).length();
    assert_eq!(apart, 39_999_999);
}

#[test]
fn far_particles_pass_a_frame_without_collision() {
    let mut m = Model::new();
    m.spawn(units(1), at(-30, 0), 0, 0, 0);
    m.spawn(units(1), at(30, 0), 0, 0, 0);
    m.particles[0].is_new = false;
    m.particles[0].velocity = at(5, 0);
    m.particles[1].is_new = false;
    m.resolve_collisions();
    assert_eq!(m.particles[0].velocity, at(5, 0));
    assert_eq!(m.particles[1].velocity, at(0, 0));
    assert_eq!(m.particles[0].position, at(-30, 0));
    assert_eq!(m.particles[1].position, at(30, 0));
}

#[test]
fn pairs_are_resolved_in_order_of_spawning() {
    let mut m = Model::new();
    m.spawn(units(1), at(0, 0), 0, 0, 0);
    m.spawn(units(1), at(10, 0), 0, 0, 0);
    m.spawn(units(1), at(25, 0), 0, 0, 0);
    for p in m.particles.iter_mut() {
        p.is_new = false;
    }
    m.particles[0].velocity = at(3, 0);
    m.resolve_collisions();
    // First and second: pushed to -10 and 20, velocities swapped. First and
    // third: 35 apart, no collision. Second and third: 5 apart, pushed to
    // 5 and 40, velocities swapped.
    assert_eq!(m.particles[0].position, at(-10, 0));
    assert_eq!(m.particles[0].velocity, at(0, 0));
    assert_eq!(m.particles[1].position, at(5, 0));
    assert_eq!(m.particles[1].velocity, at(0, 0));
    assert_eq!(m.particles[2].position, at(40, 0));
    assert_eq!(m.particles[2].velocity, at(3, 0));
}

#[test]
fn integrate_keeps_every_particle_between_the_walls() {
    let mut m = Model::new();
    m.spawn(units(1), at(489, 389), 0, 0, 0);
    m.spawn(units(4), at(-479, -379), 0, 0, 0);
    m.particles[0].is_new = false;
    m.particles[0].velocity = at(5, 5);
    m.particles[1].is_new = false;
    m.particles[1].velocity = at(-5, 0);
    m.integrate();
    assert_eq!(m.particles[0].position, at(490, 390));
    assert_eq!(m.particles[0].velocity, at(-5, -5));
    assert_eq!(m.particles[1].position, at(-480, -379));
    assert_eq!(m.particles[1].velocity, at(5, 0));
}

#[test]
fn view_shows_the_particles_and_the_arrow_while_dragging() {
    let mut m = Model::new();
    let empty = m.view();
    assert!(empty.ellipses.is_empty());
    assert_eq!(empty.arrow, None);
    assert_eq!(empty.background, Srgba::new(0, 0, 0, ONE));
    m.event(at(1, 2), WindowEvent::MousePressed(MouseButton::Left));
    assert_eq!(m.view().arrow, None);
    m.spawn(units(4), at(1, 2), 0, 0, 0);
    m.spawn(units(1), at(200, 100), 0, 0, 0);
    m.update(at(30, 40));
    let scene = m.view();
    assert_eq!(scene.ellipses.len(), 2);
    assert_eq!(scene.ellipses[0], m.particles[0].display());
    assert_eq!(scene.ellipses[1], m.particles[1].display());
    assert_eq!(scene.ellipses[0].width, units(40));
    assert_eq!(
        scene.arrow,
        Some(Arrow { weight: ARROW_WEIGHT, start: at(200, 100), end: at(30, 40) })
    );
    m.event(at(30, 40), WindowEvent::MouseReleased(MouseButton::Left));
    assert_eq!(m.view().arrow, None);
}
