//! The population seeder: builds the initial set of bodies with
//! randomized mass, velocity and position.  Mass is drawn from a
//! bounded range and squared, biasing toward small masses; each
//! velocity axis is uniform in a symmetric range; position and visual
//! tag derive from the same random triple.

use vstd::prelude::*;
use crate::body::{Body, wf_body, MASS_MAX, MAX_BODIES};
use crate::math::iabs;
use crate::vec3::V3;
use crate::world::{total_mass, wf_world, World, lemma_total_mass_push};

verus! {

/// Relies on `rand::Rng::gen_range` over a half-open `u64` range on
/// the thread-local generator: the drawn value lies in `[lo, hi)`.
/// The empty range, on which it panics, is excluded by `requires`;
/// nothing more can be promised of a random value.
#[verifier::external_body]
fn random_in(lo: u64, hi: u64) -> (r: u64)
    requires
        lo < hi,
    ensures
        lo <= r < hi,
{
    rand::Rng::gen_range(&mut rand::thread_rng(), lo..hi)
}

/// A uniform draw from `[-half, half]`, in sub-units.
fn random_centered(half: u64) -> (v: i64)
    requires
        half <= 1_000_000_000,
    ensures
        -(half as int) <= v as int <= half as int,
{
    let raw = random_in(0, 2 * half + 1);
    (raw as i64) - (half as i64)
}

/// Seed `count` bodies with random mass, velocity, position and tag;
/// the result is well-formed, every mass is strictly positive, every
/// velocity axis lies in the symmetric draw range and every position
/// coordinate within the seeded cube.
pub fn seed(count: usize) -> (w: World)
    requires
        count <= MAX_BODIES,
    ensures
        wf_world(w.bodies@),
        w.bodies@.len() == count,
        forall|k: int| 0 <= k < count ==> 1 <= (#[trigger] w.bodies@[k]).mass <= 360_000,
        forall|k: int| 0 <= k < count
            ==> iabs((#[trigger] w.bodies@[k]).vel.x as int) <= 30_000
                && iabs(w.bodies@[k].vel.y as int) <= 30_000
                && iabs(w.bodies@[k].vel.z as int) <= 30_000,
        forall|k: int| 0 <= k < count
            ==> iabs((#[trigger] w.bodies@[k]).pos.x as int) <= 39_200_000
                && iabs(w.bodies@[k].pos.y as int) <= 39_200_000
                && iabs(w.bodies@[k].pos.z as int) <= 39_200_000,
{
    let mut w = World::new();
    let mut i: usize = 0;
    while i < count
        invariant
            i <= count,
            count <= MAX_BODIES,
            w.bodies@.len() == i,
            forall|k: int| 0 <= k < i ==> wf_body(#[trigger] w.bodies@[k]),
            forall|k: int| 0 <= k < i ==> 1 <= (#[trigger] w.bodies@[k]).mass <= 360_000,
            forall|k: int| 0 <= k < i
                ==> iabs((#[trigger] w.bodies@[k]).vel.x as int) <= 30_000
                    && iabs(w.bodies@[k].vel.y as int) <= 30_000
                    && iabs(w.bodies@[k].vel.z as int) <= 30_000,
            forall|k: int| 0 <= k < i
                ==> iabs((#[trigger] w.bodies@[k]).pos.x as int) <= 39_200_000
                    && iabs(w.bodies@[k].pos.y as int) <= 39_200_000
                    && iabs(w.bodies@[k].pos.z as int) <= 39_200_000,
            total_mass(w.bodies@) <= i * 360_000,
            total_mass(w.bodies@) >= 0,
        decreases count - i,
    {
        // Mass: a bounded draw, squared, then rescaled to sub-units
        // (0.001 .. 0.6 units before squaring).
        let raw = random_in(1_000, 600_001);
        proof {
            assert(raw * raw <= 360_000_000_000 && raw * raw >= 1_000_000)
                by (nonlinear_arith)
                requires 1_000 <= raw <= 600_000,
            ;
            vstd::arithmetic::div_mod::lemma_div_is_ordered(
                1_000_000, (raw * raw) as int, 1_000_000);
            vstd::arithmetic::div_mod::lemma_div_is_ordered(
                (raw * raw) as int, 360_000_000_000, 1_000_000);
        }
        let mass = ((raw * raw) / 1_000_000) as i64;
        // Position and tag from the same random triple, spanning a
        // bounded cube (the triple scaled by 80 units, offset by -40).
        let r = random_in(10_000, 990_001);
        let g = random_in(10_000, 990_001);
        let b = random_in(10_000, 990_001);
        let px = (r as i64) * 80 - 40_000_000;
        let py = (g as i64) * 80 - 40_000_000;
        let pz = (b as i64) * 80 - 40_000_000;
        let app = ((r % 256) * 65_536 + (g % 256) * 256 + (b % 256)) as u32;
        // Velocity: each axis uniform in [-0.03, 0.03] units per step.
        let vx = random_centered(30_000);
        let vy = random_centered(30_000);
        let vz = random_centered(30_000);
        let nb = Body {
            pos: V3::new(px, py, pz),
            vel: V3::new(vx, vy, vz),
            mass,
            appearance: app,
        };
        let ghost before = w.bodies@;
        w.bodies.push(nb);
        proof {
            lemma_total_mass_push(before, nb);
            assert(wf_body(nb));
            assert((i + 1) * 360_000 == i * 360_000 + 360_000) by (nonlinear_arith);
        }
        i = i + 1;
    }
    proof {
        assert(count * 360_000 <= MASS_MAX) by (nonlinear_arith)
            requires count <= 10_000,
        ;
    }
    w
}

} // verus!
