//! End-to-end tests of the physics kernel on concrete worlds.

use nbody::body::Body;
use nbody::vec3::V3;
use nbody::world::World;

fn body(px: i64, py: i64, pz: i64, vx: i64, vy: i64, vz: i64, mass: i64, tag: u32) -> Body {
    Body {
        pos: V3 { x: px, y: py, z: pz },
        vel: V3 { x: vx, y: vy, z: vz },
        mass,
        appearance: tag,
    }
}

fn world_of(bodies: Vec<Body>) -> World {
    World { bodies }
}

#[test]
fn two_bodies_attract_symmetrically() {
    // Two unit masses ten units apart, at rest: after one gravity pass
    // each velocity has magnitude G/100 = 0.00007 units (70 sub-units),
    // pointing toward the other body, exactly opposite.
    let a = body(0, 0, 0, 0, 0, 0, 1_000_000, 1);
    let b = body(10_000_000, 0, 0, 0, 0, 0, 1_000_000, 2);
    let mut w = world_of(vec![a, b]);
    w.gravity();
    assert_eq!(w.bodies.len(), 2);
    assert_eq!(w.bodies[0].vel, V3 { x: 70, y: 0, z: 0 });
    assert_eq!(w.bodies[1].vel, V3 { x: -70, y: 0, z: 0 });
    // Positions and masses untouched by gravity.
    assert_eq!(w.bodies[0].pos, V3 { x: 0, y: 0, z: 0 });
    assert_eq!(w.bodies[1].pos, V3 { x: 10_000_000, y: 0, z: 0 });
    assert_eq!(w.bodies[0].mass, 1_000_000);
    assert_eq!(w.bodies[1].mass, 1_000_000);
}

#[test]
fn gravity_pass_conserves_momentum() {
    // Momentum sum before and after one gravity pass differs by less
    // than the total mass in sub-units, on every axis.
    let a = body(0, 0, 0, 100, -50, 7, 1_000_000, 1);
    let b = body(5_000_000, 1_000_000, -2_000_000, -20, 30, 44, 3_000_000, 2);
    let mut w = world_of(vec![a, b]);
    let before = momentum(&w);
    w.gravity();
    let after = momentum(&w);
    let tol = (a.mass + b.mass) as i128;
    for axis in 0..3 {
        assert!((after[axis] - before[axis]).abs() < tol);
    }
}

fn momentum(w: &World) -> [i128; 3] {
    let mut p = [0i128; 3];
    for b in &w.bodies {
        p[0] += b.mass as i128 * b.vel.x as i128;
        p[1] += b.mass as i128 * b.vel.y as i128;
        p[2] += b.mass as i128 * b.vel.z as i128;
    }
    p
}

#[test]
fn unequal_masses_merge_to_weighted_centroid() {
    // Masses 1.0 and 3.0 closer than the sum of their radii merge into
    // one body of mass 4.0 at the mass-weighted centroid; the lighter
    // identity is removed from the live collection.
    let heavy = body(0, 0, 0, 0, 0, 0, 3_000_000, 7);
    let light = body(2_000_000, 0, 0, 0, 0, 0, 1_000_000, 9);
    let mut w = world_of(vec![heavy, light]);
    w.collisions();
    assert_eq!(w.bodies.len(), 1);
    assert_eq!(w.bodies[0].mass, 4_000_000);
    assert_eq!(w.bodies[0].pos, V3 { x: 500_000, y: 0, z: 0 });
    assert_eq!(w.bodies[0].vel, V3 { x: 0, y: 0, z: 0 });
    // The absorbing (heavier, lower-index) body's tag wins.
    assert_eq!(w.bodies[0].appearance, 7);
}

#[test]
fn collision_threshold_is_strict() {
    // Unit masses have radius exactly 1.0 (one million sub-units).
    // At distance exactly radius(A)+radius(B) the pair does NOT merge;
    // one sub-unit closer, it does.
    let a = body(0, 0, 0, 0, 0, 0, 1_000_000, 1);
    let b = body(2_000_000, 0, 0, 0, 0, 0, 1_000_000, 2);
    let mut w = world_of(vec![a, b]);
    w.collisions();
    assert_eq!(w.bodies.len(), 2);

    let c = body(1_999_999, 0, 0, 0, 0, 0, 1_000_000, 2);
    let mut w2 = world_of(vec![a, c]);
    w2.collisions();
    assert_eq!(w2.bodies.len(), 1);
    assert_eq!(w2.bodies[0].mass, 2_000_000);
}

#[test]
fn equal_mass_merge_lands_at_midpoint() {
    let a = body(-1_000, 500, 300, 0, 0, 0, 1_000_000, 1);
    let b = body(3_000, 500, 100, 0, 0, 0, 1_000_000, 2);
    let mut w = world_of(vec![a, b]);
    w.collisions();
    assert_eq!(w.bodies.len(), 1);
    assert_eq!(w.bodies[0].pos, V3 { x: 1_000, y: 500, z: 200 });
    assert_eq!(w.bodies[0].mass, 2_000_000);
}

#[test]
fn cascading_merges_conserve_mass() {
    // Three overlapping bodies in a row: the lowest index absorbs one
    // partner, then carries its updated state into the next merge in
    // the same pass.  Total mass is conserved exactly.
    let a = body(0, 0, 0, 0, 0, 0, 1_000_000, 1);
    let b = body(1_000, 0, 0, 0, 0, 0, 2_000_000, 2);
    let c = body(2_000, 0, 0, 0, 0, 0, 3_000_000, 3);
    let mut w = world_of(vec![a, b, c]);
    let total = w.mass_total();
    w.collisions();
    assert_eq!(w.bodies.len(), 1);
    assert_eq!(w.bodies[0].mass, 6_000_000);
    assert_eq!(w.mass_total(), total);
}

#[test]
fn mass_is_conserved_across_whole_steps() {
    let mut w = world_of(vec![
        body(0, 0, 0, 10, 0, 0, 1_000_000, 1),
        body(3_000_000, 0, 0, -10, 0, 0, 2_000_000, 2),
        body(0, 4_000_000, 0, 0, 5, 0, 1_500_000, 3),
        body(500, 600, 700, 0, 0, 0, 2_500_000, 4),
    ]);
    let total = w.mass_total();
    for _ in 0..5 {
        w.step();
        assert_eq!(w.mass_total(), total);
        assert!(w.is_well_formed());
    }
}

#[test]
fn isolated_body_keeps_coasting() {
    // A single body has no pairs: gravity is a no-op, and the
    // integrator moves it by exactly its velocity, step after step.
    let mut w = world_of(vec![body(10, 20, 30, 3, 4, 5, 1_000_000, 1)]);
    w.gravity();
    assert_eq!(w.bodies[0].vel, V3 { x: 3, y: 4, z: 5 });
    assert_eq!(w.bodies[0].pos, V3 { x: 10, y: 20, z: 30 });
    for k in 1..=4i64 {
        w.movement();
        assert_eq!(
            w.bodies[0].pos,
            V3 { x: 10 + 3 * k, y: 20 + 4 * k, z: 30 + 5 * k }
        );
    }
    w.step();
    assert_eq!(w.bodies.len(), 1);
}

#[test]
fn integrator_clamps_at_world_edge() {
    let mut w = world_of(vec![body(100_000_000_000, 0, 0, 5, -2, 0, 1_000_000, 1)]);
    w.movement();
    assert_eq!(w.bodies[0].pos, V3 { x: 100_000_000_000, y: -2, z: 0 });
}

#[test]
fn radius_is_floor_cube_root_of_mass() {
    let unit = body(0, 0, 0, 0, 0, 0, 1_000_000, 1);
    assert_eq!(unit.radius(), 1_000_000);
    let eight = body(0, 0, 0, 0, 0, 0, 8_000_000, 1);
    assert_eq!(eight.radius(), 2_000_000);
    let three = body(0, 0, 0, 0, 0, 0, 3_000_000, 1);
    assert_eq!(three.radius(), 1_442_249);
}

#[test]
fn merged_body_radius_tracks_new_mass() {
    // 3.5 + 4.5 units of mass merge to 8.0, whose radius is exactly 2.0.
    let a = body(0, 0, 0, 0, 0, 0, 3_500_000, 1);
    let b = body(1_000, 0, 0, 0, 0, 0, 4_500_000, 2);
    let mut w = world_of(vec![a, b]);
    w.collisions();
    assert_eq!(w.bodies.len(), 1);
    assert_eq!(w.bodies[0].mass, 8_000_000);
    assert_eq!(w.bodies[0].radius(), 2_000_000);
}

#[test]
fn star_is_a_resting_body() {
    let s = Body::star();
    assert_eq!(s.mass, 1_100_000);
    assert_eq!(s.vel, V3 { x: 0, y: 0, z: 0 });
    assert_eq!(s.pos, V3 { x: 0, y: 0, z: 0 });
    assert_eq!(s.appearance, 0xFF_FF_FF);
    assert_eq!(s.radius(), 1_032_280);
}

#[test]
fn pass_visits_each_unordered_pair_once() {
    // For n bodies a pass touches exactly n*(n-1)/2 unordered pairs.
    for n in [0usize, 1, 2, 3, 5, 10] {
        let bodies: Vec<Body> = (0..n)
            .map(|k| body(3_000_000 * k as i64, 0, 0, 0, 0, 0, 1_000_000, k as u32))
            .collect();
        let w = world_of(bodies);
        assert_eq!(w.pair_count(), n * n.saturating_sub(1) / 2);
    }
}

#[test]
fn coincident_bodies_leave_gravity_unchanged() {
    // The degenerate zero-distance pair is a documented no-op.
    let a = body(5, 5, 5, 1, 2, 3, 1_000_000, 1);
    let b = body(5, 5, 5, -1, -2, -3, 2_000_000, 2);
    let mut w = world_of(vec![a, b]);
    w.gravity();
    assert_eq!(w.bodies[0].vel, V3 { x: 1, y: 2, z: 3 });
    assert_eq!(w.bodies[1].vel, V3 { x: -1, y: -2, z: -3 });
}
