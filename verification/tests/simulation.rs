//! End-to-end tests of the flocking kernel on concrete values.
//!
//! All coordinates are raw fixed-point integers: one pixel is 10_000 raw
//! steps.

use boids::boid::Boid;
use boids::flock::{boid_count, triangle, Flock};
use boids::vector::{Vector, Vertex};

const SCALE: i128 = 10_000;

fn boid(px: i128, py: i128, vx: i128, vy: i128) -> Boid {
    Boid::new(Vector::new(px, py), Vector::new(vx, vy))
}

/// A full agent buffer with the given agents first and zeroed agents in
/// the remaining (inactive) slots.
fn flock_of(mut agents: Vec<Boid>) -> Flock {
    while agents.len() < 150 {
        agents.push(Boid::zero());
    }
    Flock::from_agents(agents)
}

#[test]
fn active_count_scales_with_area() {
    // Zero area gives an empty population.
    assert_eq!(boid_count(0, 100), 0);
    assert_eq!(boid_count(100, 0), 0);
    // 100 * 100 * 0.00015 = 1.5, floored.
    assert_eq!(boid_count(100, 100), 1);
    // 200 * 67 * 0.00015 = 2.01, floored.
    assert_eq!(boid_count(200, 67), 2);
    // 0.00015 * area >= 150 caps at the fixed maximum.
    assert_eq!(boid_count(1000, 1000), 150);
    assert_eq!(boid_count(1_000_000, 1_000_000), 150);
}

#[test]
fn active_count_monotone_in_area() {
    let mut last = 0;
    for side in [0u64, 50, 100, 200, 400, 800, 1600] {
        let c = boid_count(side, side);
        assert!(c >= last);
        last = c;
    }
    assert!(boid_count(150, 100) <= boid_count(150, 200));
}

#[test]
fn triangle_winding_for_unit_right_heading() {
    // Agent at the origin heading right in a 100 x 100 viewport.  The
    // pixel-space corners are (10, 0), (-2, -5), (-2, 5); mapped to clip
    // space (times SCALE) they are:
    let b = boid(0, 0, SCALE, 0);
    let (front, right, left) = triangle(&b, 100, 100);
    assert_eq!(front, Vertex { x: -8_000, y: 10_000 });
    assert_eq!(right, Vertex { x: -10_400, y: 11_000 });
    assert_eq!(left, Vertex { x: -10_400, y: 9_000 });
}

#[test]
fn origin_maps_to_top_left_clip_corner() {
    let p = Vector::new(0, 0);
    let v = p.map(100, 100);
    assert_eq!(v, Vertex { x: -SCALE, y: SCALE });
}

#[test]
fn solitary_agent_keeps_its_velocity() {
    // No neighbor, no wall in range, speed below the limit: the step
    // only advances the position by the velocity.
    let b = boid(500 * SCALE, 500 * SCALE, SCALE, 0);
    let stepped = b.step(&Vec::new(), 1000, 1000);
    assert_eq!(stepped.velocity, Vector::new(SCALE, 0));
    assert_eq!(stepped.position, Vector::new(500 * SCALE + SCALE, 500 * SCALE));
}

#[test]
fn fast_agent_is_clamped_to_max_speed() {
    // Speed 10 along the x axis is rescaled to exactly 4.
    let b = boid(500 * SCALE, 500 * SCALE, 10 * SCALE, 0);
    let stepped = b.step(&Vec::new(), 1000, 1000);
    assert_eq!(stepped.velocity, Vector::new(4 * SCALE, 0));
    assert_eq!(stepped.position, Vector::new(500 * SCALE + 4 * SCALE, 500 * SCALE));
}

#[test]
fn clamped_speed_never_exceeds_max_speed() {
    // A diagonal velocity of magnitude ~14.14 is rescaled; the resulting
    // magnitude must stay at or below 4.0 (40_000 raw).
    let b = boid(500 * SCALE, 500 * SCALE, 10 * SCALE, 10 * SCALE);
    let stepped = b.step(&Vec::new(), 1000, 1000);
    let vx = stepped.velocity.x;
    let vy = stepped.velocity.y;
    assert_eq!((vx, vy), (28_284, 28_284));
    assert!(vx * vx + vy * vy <= 40_000 * 40_000);
}

#[test]
fn left_wall_pushes_right() {
    // x = 1 pixel, zero velocity: the clamped wall distance is one unit,
    // so the agent gains WALL_FACTOR / 1^2 = 100.0 of x-velocity.
    let b = boid(SCALE, 500 * SCALE, 0, 0);
    let stepped = b.step(&Vec::new(), 1000, 1000);
    assert_eq!(stepped.velocity.x, 100 * SCALE);
    assert!(stepped.velocity.x > 0);
    assert_eq!(stepped.velocity.y, 0);
}

#[test]
fn right_wall_pushes_left() {
    // x = width - 1 in a 1000-pixel viewport.
    let b = boid(999 * SCALE, 500 * SCALE, 0, 0);
    let stepped = b.step(&Vec::new(), 1000, 1000);
    assert_eq!(stepped.velocity.x, -100 * SCALE);
    assert!(stepped.velocity.x < 0);
}

#[test]
fn step_reads_only_the_pre_step_snapshot() {
    // Two active agents (200 x 67 pixels gives an active count of 2).
    // After one flock step, each new agent state must equal the
    // single-agent step computed from both agents' pre-step states.
    let a = boid(50 * SCALE, 30 * SCALE, SCALE, 0);
    let b = boid(60 * SCALE, 30 * SCALE, -SCALE, 0);
    let mut flock = flock_of(vec![a, b]);
    let count = flock.step(200, 67);
    assert_eq!(count, 2);
    let expected_a = a.step(&vec![b], 200, 67);
    let expected_b = b.step(&vec![a], 200, 67);
    assert_eq!(flock.agent(0), expected_a);
    assert_eq!(flock.agent(1), expected_b);
    // The two must differ from what updating in place would produce:
    // stepping b against the already-updated a gives another state.
    let in_place_b = b.step(&vec![expected_a], 200, 67);
    assert_ne!(in_place_b, expected_b);
}

#[test]
fn neighbors_within_radius_interact() {
    // Two agents 10 pixels apart in a large viewport, far from walls.
    // For agent a: separation delta/(d^3) = (-10/1000, 0) = -0.01;
    // weighted by 30 gives -3.0; alignment toward b's velocity
    // (-1) * 0.02 = -0.02 versus a's 1.0; cohesion (b - a) * 0.0035.
    let a = boid(500 * SCALE, 500 * SCALE, SCALE, 0);
    let b = boid(510 * SCALE, 500 * SCALE, -SCALE, 0);
    let stepped = a.step(&vec![b], 2000, 2000);
    // separation: delta = -10 units, distance 10, cube 1000;
    // -100_000 * 10_000 / 10_000_000 = -100 raw, times 30 = -3.0.
    // alignment: -10_000 * 0.02 = -0.02 (-200 raw).
    // cohesion: +10 units * 0.0035 = 0.035 (+350 raw).
    let expected_vx = SCALE - 30 * 100 - 200 + 350;
    assert_eq!(stepped.velocity, Vector::new(expected_vx, 0));
    assert_eq!(stepped.position, Vector::new(500 * SCALE + expected_vx, 500 * SCALE));
}

#[test]
fn coincident_agents_produce_finite_forces() {
    // Exactly coincident agents: the separation denominator is clamped,
    // and the zero offset contributes nothing; alignment still acts.
    let a = boid(100 * SCALE, 500 * SCALE, SCALE, 0);
    let b = boid(100 * SCALE, 500 * SCALE, -SCALE, 0);
    let stepped = a.step(&vec![b], 1000, 1000);
    // alignment only: -10_000 * 0.02 = -200 raw; cohesion is zero.
    assert_eq!(stepped.velocity, Vector::new(SCALE - 200, 0));
}

#[test]
fn vertices_read_is_idempotent_and_sized() {
    let mut flock = Flock::new(1000, 1000);
    let count = flock.step(1000, 1000);
    assert_eq!(count, 150);
    let v1 = flock.vertices(count);
    let v2 = flock.vertices(count);
    assert_eq!(v1.len(), 3 * count as usize);
    assert_eq!(v1, v2);
    assert_eq!(flock.vertices(2).len(), 6);
    assert_eq!(flock.vertices(0).len(), 0);
}

#[test]
fn vertices_match_the_stepped_agents() {
    let a = boid(50 * SCALE, 30 * SCALE, SCALE, 0);
    let b = boid(60 * SCALE, 30 * SCALE, -SCALE, 0);
    let mut flock = flock_of(vec![a, b]);
    let count = flock.step(200, 67);
    let verts = flock.vertices(count);
    let (f0, r0, l0) = triangle(&flock.agent(0), 200, 67);
    let (f1, r1, l1) = triangle(&flock.agent(1), 200, 67);
    assert_eq!(verts, vec![f0, r0, l0, f1, r1, l1]);
}

#[test]
fn new_flock_agents_start_inside_the_viewport() {
    // Exercises the random placement: every agent lies on the viewport's
    // pixel grid and has a nonzero velocity in the start-speed range.
    let flock = Flock::new(800, 600);
    for i in 0..150 {
        let agent = flock.agent(i);
        let p = agent.position;
        let v = agent.velocity;
        assert!(0 <= p.x && p.x < 800 * SCALE);
        assert!(0 <= p.y && p.y < 600 * SCALE);
        assert!(v.x != 0 || v.y != 0);
        assert!(v.x.abs() <= 2 * SCALE && v.y.abs() <= 2 * SCALE);
    }
}

#[test]
fn empty_viewport_steps_no_agents() {
    let a = boid(50 * SCALE, 30 * SCALE, SCALE, 0);
    let mut flock = flock_of(vec![a]);
    let count = flock.step(1, 1);
    assert_eq!(count, 0);
    assert_eq!(flock.vertices(count).len(), 0);
}
