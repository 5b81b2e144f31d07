//! Tests of the integer root helpers and the population seeder.

use nbody::math::{icbrt, isqrt};
use nbody::seeder::seed;

#[test]
fn floor_square_roots_are_exact() {
    assert_eq!(isqrt(0), 0);
    assert_eq!(isqrt(1), 1);
    assert_eq!(isqrt(99), 9);
    assert_eq!(isqrt(100), 10);
    assert_eq!(isqrt(100_000_000_000_000), 10_000_000);
    assert_eq!(isqrt(100_000_000_000_001), 10_000_000);
}

#[test]
fn floor_cube_roots_are_exact() {
    assert_eq!(icbrt(0), 0);
    assert_eq!(icbrt(1), 1);
    assert_eq!(icbrt(26), 2);
    assert_eq!(icbrt(27), 3);
    assert_eq!(icbrt(1_000_000_000_000_000_000), 1_000_000);
    assert_eq!(icbrt(999_999_999_999_999_999), 999_999);
}

#[test]
fn seeded_population_is_well_formed() {
    let w = seed(25);
    assert_eq!(w.bodies.len(), 25);
    assert!(w.is_well_formed());
    for b in &w.bodies {
        assert!(1 <= b.mass && b.mass <= 360_000);
        assert!(b.pos.x.abs() <= 39_200_000);
        assert!(b.pos.y.abs() <= 39_200_000);
        assert!(b.pos.z.abs() <= 39_200_000);
        assert!(b.vel.x.abs() <= 30_000);
        assert!(b.vel.y.abs() <= 30_000);
        assert!(b.vel.z.abs() <= 30_000);
    }
}

#[test]
fn seeded_population_survives_steps() {
    let mut w = seed(12);
    let total = w.mass_total();
    for _ in 0..10 {
        w.step();
        assert!(w.is_well_formed());
        assert_eq!(w.mass_total(), total);
        assert!(w.bodies.len() >= 1);
    }
}
