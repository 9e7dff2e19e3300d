use verlet_universe::collision::MassSplit;
use verlet_universe::particle::Particle;
use verlet_universe::particle::Vec2;
use verlet_universe::physics::PhysicsUniverse;

fn length(x: f32, y: f32) -> f32 {
    (x * x + y * y).sqrt()
}

fn direction(x: f32, y: f32) -> (f32, f32) {
    let l = length(x, y) + f32::EPSILON;
    (x / l, y / l)
}

/// Position-Verlet: the position, plus the implied velocity, plus the
/// acceleration times the square of the time step.
fn integrate(p: Particle<f32>, gravity: f32, dt: f32) -> Vec2<f32> {
    Vec2(
        p.pos.0 + (p.pos.0 - p.old_pos.0) + 0.0 * (dt * dt),
        p.pos.1 + (p.pos.1 - p.old_pos.1) + gravity * (dt * dt),
    )
}

/// Whether the centres are further apart than the sum of the radii.
fn separated(first: Particle<f32>, second: Particle<f32>) -> bool {
    length(first.pos.0 - second.pos.0, first.pos.1 - second.pos.1) > first.radius + second.radius
}

/// The corrected positions of a pair.
fn correct(
    first: Particle<f32>,
    second: Particle<f32>,
    split: MassSplit,
    response_coeff: f32,
) -> (Vec2<f32>, Vec2<f32>) {
    let (dx, dy) = (first.pos.0 - second.pos.0, first.pos.1 - second.pos.1);
    let diff = first.radius + second.radius - length(dx, dy);
    let m1 = match split {
        MassSplit::SecondTakesAll => 1.0,
        MassSplit::FirstTakesAll => 0.0,
        MassSplit::ByRadius => first.radius / (first.radius + second.radius),
    };
    let m2 = 1.0 - m1;
    let (ux, uy) = direction(dx, dy);
    let k1 = m2 * response_coeff * diff;
    let k2 = -m1 * response_coeff * diff;
    (
        Vec2(first.pos.0 + ux * k1, first.pos.1 + uy * k1),
        Vec2(second.pos.0 + ux * k2, second.pos.1 + uy * k2),
    )
}

/// The point on the boundary to put a particle at, if it has left the
/// boundary circle.
fn project(p: Particle<f32>, center: Vec2<f32>, radius: f32) -> Option<Vec2<f32>> {
    let (dx, dy) = (p.pos.0 - center.0, p.pos.1 - center.1);
    let max_dist = radius - p.radius;
    if length(dx, dy) <= max_dist {
        None
    } else {
        let (ux, uy) = direction(dx, dy);
        Some(Vec2(ux * max_dist + center.0, uy * max_dist + center.1))
    }
}

fn tick(universe: &mut PhysicsUniverse<f32>, dt: f32) {
    universe.tick(dt, integrate, separated, correct, project);
}

/// A draw for a universe that is to start without particles.
fn nothing<T>() -> (Vec2<T>, Vec2<T>, T, T) {
    panic!("no particle to draw")
}

fn universe() -> PhysicsUniverse<f32> {
    PhysicsUniverse::new(0, 0.0, 1.0, 320.0, 320.0, 320.0, nothing)
}

fn pos_of(universe: &PhysicsUniverse<f32>, index: usize) -> (f32, f32) {
    let p = universe.particle(index).unwrap();
    (p.pos.0, p.pos.1)
}

fn close(a: f32, b: f32) -> bool {
    (a - b).abs() < 1e-3
}

#[test]
fn a_particle_at_rest_without_gravity_stays_put() {
    let mut universe = universe();
    universe.add_particle_at_pos(100.0, 200.0, 100.0, 200.0, 10.0, 0.0);
    universe.update_particles(16.0, integrate);
    assert_eq!(pos_of(&universe, 0), (100.0, 200.0));
    let p = universe.particle(0).unwrap();
    assert_eq!((p.old_pos.0, p.old_pos.1), (100.0, 200.0));
}

#[test]
fn integration_adds_velocity_and_gravity() {
    let mut universe = universe();
    universe.set_gravity(0.5);
    universe.add_particle_at_pos(10.0, 20.0, 9.0, 18.0, 10.0, 0.0);
    universe.update_particles(2.0, integrate);
    // x: 10 + (10 - 9); y: 20 + (20 - 18) + 0.5 * 2 * 2.
    assert_eq!(pos_of(&universe, 0), (11.0, 24.0));
    let p = universe.particle(0).unwrap();
    assert_eq!((p.old_pos.0, p.old_pos.1), (10.0, 20.0));
    universe.update_particles(2.0, integrate);
    assert_eq!(pos_of(&universe, 0), (12.0, 30.0));
}

#[test]
fn overlapping_pair_of_equal_radii_is_pushed_apart_evenly() {
    let mut universe = universe();
    universe.add_particle_at_pos(0.0, 0.0, 0.0, 0.0, 10.0, 0.0);
    universe.add_particle_at_pos(5.0, 0.0, 5.0, 0.0, 10.0, 0.0);
    universe.solve_collisions(separated, correct);
    let (x1, y1) = pos_of(&universe, 0);
    let (x2, y2) = pos_of(&universe, 1);
    assert!(close(x1, -7.5));
    assert!(close(y1, 0.0));
    assert!(close(x2, 12.5));
    assert!(close(y2, 0.0));
    // Each moved by the same amount, in opposite directions, and the two
    // are now the sum of their radii apart.
    assert!(close(0.0 - x1, x2 - 5.0));
    assert!(close(x2 - x1, 20.0));
    // The history is untouched.
    let p = universe.particle(0).unwrap();
    let q = universe.particle(1).unwrap();
    assert_eq!((p.old_pos.0, p.old_pos.1), (0.0, 0.0));
    assert_eq!((q.old_pos.0, q.old_pos.1), (5.0, 0.0));
}

#[test]
fn a_smaller_response_moves_the_pair_towards_contact_only() {
    let mut universe = universe();
    universe.set_response_coeff(0.5);
    universe.add_particle_at_pos(0.0, 0.0, 0.0, 0.0, 10.0, 0.0);
    universe.add_particle_at_pos(5.0, 0.0, 5.0, 0.0, 10.0, 0.0);
    universe.solve_collisions(separated, correct);
    let (x1, _) = pos_of(&universe, 0);
    let (x2, _) = pos_of(&universe, 1);
    assert!(close(x1, -3.75));
    assert!(close(x2, 8.75));
    assert!(x2 - x1 > 5.0);
    assert!(x2 - x1 < 20.0);
}

#[test]
fn the_larger_particle_moves_less() {
    let mut universe = universe();
    universe.add_particle_at_pos(0.0, 0.0, 0.0, 0.0, 30.0, 0.0);
    universe.add_particle_at_pos(0.0, 20.0, 0.0, 20.0, 10.0, 0.0);
    universe.solve_collisions(separated, correct);
    // Overlap 20; the first has three quarters of the radius and takes one
    // quarter of the correction.
    let (x1, y1) = pos_of(&universe, 0);
    let (x2, y2) = pos_of(&universe, 1);
    assert!(close(x1, 0.0));
    assert!(close(y1, -5.0));
    assert!(close(x2, 0.0));
    assert!(close(y2, 35.0));
}

#[test]
fn a_pair_in_contact_is_left_where_it_is() {
    let mut universe = universe();
    universe.add_particle_at_pos(0.0, 0.0, 0.0, 0.0, 10.0, 0.0);
    universe.add_particle_at_pos(12.0, 16.0, 12.0, 16.0, 10.0, 0.0);
    // The centres are exactly the sum of the radii apart: the pair is
    // corrected, by nothing.
    universe.solve_collisions(separated, correct);
    assert_eq!(pos_of(&universe, 0), (0.0, 0.0));
    assert_eq!(pos_of(&universe, 1), (12.0, 16.0));
}

#[test]
fn a_separated_pair_is_left_alone() {
    let mut universe = universe();
    universe.add_particle_at_pos(0.0, 0.0, 0.0, 0.0, 10.0, 0.0);
    universe.add_particle_at_pos(25.0, 0.0, 25.0, 0.0, 10.0, 0.0);
    universe.solve_collisions(separated, correct);
    assert_eq!(pos_of(&universe, 0), (0.0, 0.0));
    assert_eq!(pos_of(&universe, 1), (25.0, 0.0));
}

#[test]
fn the_whole_correction_goes_to_the_free_particle() {
    let mut universe = universe();
    universe.add_particle_at_pos(0.0, 0.0, 0.0, 0.0, 10.0, 0.0);
    universe.add_particle_at_pos(5.0, 0.0, 5.0, 0.0, 10.0, 0.0);
    universe.fix(0);
    universe.solve_collisions(separated, correct);
    assert_eq!(pos_of(&universe, 0), (0.0, 0.0));
    let (x2, y2) = pos_of(&universe, 1);
    assert!(close(x2, 20.0));
    assert!(close(y2, 0.0));
}

#[test]
fn the_whole_correction_goes_to_the_first_when_the_second_is_fixed() {
    let mut universe = universe();
    universe.add_particle_at_pos(0.0, 0.0, 0.0, 0.0, 10.0, 0.0);
    universe.add_particle_at_pos(5.0, 0.0, 5.0, 0.0, 10.0, 0.0);
    universe.fix(1);
    universe.solve_collisions(separated, correct);
    assert_eq!(pos_of(&universe, 1), (5.0, 0.0));
    let (x1, y1) = pos_of(&universe, 0);
    assert!(close(x1, -15.0));
    assert!(close(y1, 0.0));
}

#[test]
fn two_anchors_stay_where_they_are() {
    let mut universe = universe();
    universe.add_particle_at_pos(0.0, 0.0, 0.0, 0.0, 10.0, 0.0);
    universe.add_particle_at_pos(5.0, 0.0, 5.0, 0.0, 10.0, 0.0);
    universe.fix(0);
    universe.fix(1);
    universe.solve_collisions(separated, correct);
    assert_eq!(pos_of(&universe, 0), (0.0, 0.0));
    assert_eq!(pos_of(&universe, 1), (5.0, 0.0));
}

#[test]
fn a_link_pulls_a_separated_pair_together() {
    let mut universe = universe();
    universe.add_particle_at_pos(0.0, 0.0, 0.0, 0.0, 10.0, 0.0);
    universe.add_particle_at_pos(40.0, 0.0, 40.0, 0.0, 10.0, 0.0);
    universe.link(0, 1);
    universe.solve_collisions(separated, correct);
    // Slack of 20: each comes 10 closer, to contact distance.
    let (x1, _) = pos_of(&universe, 0);
    let (x2, _) = pos_of(&universe, 1);
    assert!(close(x1, 10.0));
    assert!(close(x2, 30.0));
}

#[test]
fn a_link_to_an_anchor_pulls_the_free_particle_only() {
    let mut universe = universe();
    universe.add_particle_at_pos(0.0, 0.0, 0.0, 0.0, 10.0, 0.0);
    universe.add_particle_at_pos(0.0, 50.0, 0.0, 50.0, 10.0, 0.0);
    universe.fix(0);
    universe.link(0, 1);
    universe.solve_collisions(separated, correct);
    assert_eq!(pos_of(&universe, 0), (0.0, 0.0));
    let (x2, y2) = pos_of(&universe, 1);
    assert!(close(x2, 0.0));
    assert!(close(y2, 20.0));
}

#[test]
fn later_pairs_see_the_corrections_of_earlier_ones() {
    let mut universe = universe();
    universe.add_particle_at_pos(0.0, 0.0, 0.0, 0.0, 10.0, 0.0);
    universe.add_particle_at_pos(10.0, 0.0, 10.0, 0.0, 10.0, 0.0);
    universe.add_particle_at_pos(20.0, 0.0, 20.0, 0.0, 10.0, 0.0);
    universe.solve_collisions(separated, correct);
    // (0, 1): overlap 10, to -5 and 15. (0, 2): 25 apart, separated.
    // (1, 2): now 5 apart, overlap 15, to 7.5 and 27.5.
    let (x1, _) = pos_of(&universe, 0);
    let (x2, _) = pos_of(&universe, 1);
    let (x3, _) = pos_of(&universe, 2);
    assert!(close(x1, -5.0));
    assert!(close(x2, 7.5));
    assert!(close(x3, 27.5));
}

#[test]
fn a_particle_inside_the_boundary_is_left_alone() {
    let mut universe = universe();
    universe.add_particle_at_pos(400.0, 320.0, 400.0, 320.0, 10.0, 0.0);
    universe.apply_constraints(project);
    assert_eq!(pos_of(&universe, 0), (400.0, 320.0));
}

#[test]
fn a_particle_outside_the_boundary_is_put_on_it() {
    let mut universe = universe();
    universe.add_particle_at_pos(720.0, 320.0, 700.0, 320.0, 10.0, 0.0);
    universe.add_particle_at_pos(320.0, -80.0, 320.0, -80.0, 20.0, 0.0);
    universe.apply_constraints(project);
    // On the ray from the centre, at the boundary radius less its own.
    let (x1, y1) = pos_of(&universe, 0);
    assert!(close(x1, 630.0));
    assert!(close(y1, 320.0));
    let (x2, y2) = pos_of(&universe, 1);
    assert!(close(x2, 320.0));
    assert!(close(y2, 20.0));
    assert!(close(length(x1 - 320.0, y1 - 320.0), 310.0));
    assert!(close(length(x2 - 320.0, y2 - 320.0), 300.0));
    // The history is untouched.
    let p = universe.particle(0).unwrap();
    assert_eq!((p.old_pos.0, p.old_pos.1), (700.0, 320.0));
}

#[test]
fn a_boundary_without_room_puts_the_particle_at_its_centre() {
    let mut universe = universe();
    universe.set_circle_constraint_radius(10.0);
    universe.add_particle_at_pos(400.0, 320.0, 400.0, 320.0, 10.0, 0.0);
    universe.apply_constraints(project);
    let (x, y) = pos_of(&universe, 0);
    assert!(close(x, 320.0));
    assert!(close(y, 320.0));
}

#[test]
fn a_tick_runs_the_three_passes_in_order() {
    let mut universe = universe();
    universe.set_gravity(1.0);
    universe.add_particle_at_pos(320.0, 100.0, 320.0, 100.0, 10.0, 0.0);
    universe.add_particle_at_pos(320.0, 115.0, 320.0, 115.0, 10.0, 0.0);
    tick(&mut universe, 1.0);
    // Integration: y 101 and 116. Collision: overlap 5, to 98.5 and 118.5.
    // Both are well inside the boundary.
    let (x1, y1) = pos_of(&universe, 0);
    let (x2, y2) = pos_of(&universe, 1);
    assert!(close(x1, 320.0));
    assert!(close(y1, 98.5));
    assert!(close(x2, 320.0));
    assert!(close(y2, 118.5));
    let p = universe.particle(0).unwrap();
    assert_eq!((p.old_pos.0, p.old_pos.1), (320.0, 100.0));
}

#[test]
fn a_changed_gravity_takes_effect_on_the_next_tick() {
    let mut universe = universe();
    universe.add_particle_at_pos(320.0, 320.0, 320.0, 320.0, 10.0, 0.0);
    tick(&mut universe, 1.0);
    assert_eq!(pos_of(&universe, 0), (320.0, 320.0));
    universe.set_gravity(2.0);
    tick(&mut universe, 1.0);
    assert_eq!(pos_of(&universe, 0), (320.0, 322.0));
}
